//! Content-aware resizing: energy, path cost, the cheapest seam and its
//! removal, and the quarter turns that let one routine carve both axes.

use crate::energy::{channel_fits, lemma_load_shrinks, sample_load};
use crate::image::{Image, PPMFormat, Picture};
use crate::matrix::Matrix;
use crate::pixel::PixelRGB;
use crate::order::{
    capped, larger, lemma_leftmost_min, lemma_leftmost_min_unique, leftmost_min, smaller,
};
use vstd::prelude::*;

verus! {

/// The columns of a seam as integers.
pub open spec fn columns(seam: Seq<usize>) -> Seq<int> {
    seam.map_values(|c: usize| c as int)
}

/// Whether every cell of `channel` stays within `isize` when its load is
/// taken `rows` times.
fn channel_within(channel: &Matrix<usize>, rows: usize) -> (ok: bool)
    requires
        0 < rows <= isize::MAX,
    ensures
        ok == channel_fits(channel@, rows as nat),
{
    let width = channel.width();
    let height = channel.height();
    let limit: u128 = (isize::MAX as u128) / (6 * (rows as u128));
    let mut row: usize = 0;
    while row < height
        invariant
            row <= height,
            0 < rows <= isize::MAX,
            channel@.wf(),
            channel@.width == width,
            channel@.height() == height,
            limit == (isize::MAX as int) / (6 * (rows as int)),
            forall|r: int, c: int|
                channel@.has(r, c) && r < row ==> sample_load(
                    #[trigger] channel@.rows[r][c],
                    rows as nat,
                ) <= isize::MAX,
        decreases height - row,
    {
        let mut col: usize = 0;
        while col < width
            invariant
                row < height,
                col <= width,
                0 < rows <= isize::MAX,
                channel@.wf(),
                channel@.width == width,
                channel@.height() == height,
                limit == (isize::MAX as int) / (6 * (rows as int)),
                forall|r: int, c: int|
                    channel@.has(r, c) && (r < row || (r == row && c < col)) ==> sample_load(
                        #[trigger] channel@.rows[r][c],
                        rows as nat,
                    ) <= isize::MAX,
            decreases width - col,
        {
            let s: usize = *channel.at(row, col);
            proof {
                lemma_load_limit(s, rows as nat);
                assert(s * s <= 0xffff_ffff_ffff_ffff * 0xffff_ffff_ffff_ffff) by (nonlinear_arith)
                    requires
                        0 <= s <= 0xffff_ffff_ffff_ffff,
                ;
            }
            if (s as u128) * (s as u128) > limit {
                assert(channel@.has(row as int, col as int));
                return false;
            }
            col += 1;
        }
        row += 1;
    }
    true
}

/// A load stays within `isize` exactly when the square of the sample is at
/// most `isize::MAX / (6 * rows)`.
proof fn lemma_load_limit(s: usize, rows: nat)
    requires
        rows > 0,
    ensures
        sample_load(s, rows) <= isize::MAX <==> s * s <= (isize::MAX as int) / (6 * (rows as int)),
{
    let q = s * s;
    let d: int = 6 * (rows as int);
    let m = isize::MAX as int;
    assert(0 <= q) by (nonlinear_arith)
        requires
            q == s * s,
    ;
    assert(6 * q * rows == q * d) by (nonlinear_arith)
        requires
            d == 6 * rows,
    ;
    vstd::arithmetic::div_mod::lemma_fundamental_div_mod(m, d);
    vstd::arithmetic::div_mod::lemma_mod_bound(m, d);
    if q <= m / d {
        assert(q * d <= (m / d) * d) by (nonlinear_arith)
            requires
                q <= m / d,
                d > 0,
        ;
        assert((m / d) * d == d * (m / d)) by (nonlinear_arith);
    } else {
        assert(q * d >= (m / d + 1) * d) by (nonlinear_arith)
            requires
                q >= m / d + 1,
                d > 0,
        ;
        assert((m / d + 1) * d == d * (m / d) + d) by (nonlinear_arith);
    }
}

impl Image {
    /// Whether the energies of the image, added up over `rows` rows, stay
    /// within `isize`.
    pub fn fits(&self, rows: usize) -> (ok: bool)
        ensures
            ok == self@.fits(rows as nat),
    {
        if rows == 0 {
            assert(self@.fits(0)) by {
                assert forall|s: usize| sample_load(s, 0) == 0 by {
                    assert(6 * (s * s) * 0 == 0) by (nonlinear_arith);
                }
            }
            return true;
        }
        if rows > isize::MAX as usize {
            return false;
        }
        channel_within(self.red_channel(), rows) && channel_within(self.green_channel(), rows)
            && channel_within(self.blue_channel(), rows)
    }

    /// Whether the path costs of the image stay within `isize`, so that no
    /// energy and no cost is cut down.
    pub fn is_carvable(&self) -> (ok: bool)
        ensures
            ok == self@.carvable(),
    {
        self.fits(self.height())
    }

    /// Turns the image a quarter turn counterclockwise. An image without
    /// pixels is left as it is.
    pub fn rotate_left(&mut self)
        ensures
            final(self)@ == old(self)@.rotated_left(),
            final(self)@.wf(),
    {
        let (mut red, mut green, mut blue) = self.take_channels();
        red.rotate_left();
        green.rotate_left();
        blue.rotate_left();
        self.put_channels(red, green, blue);
    }

    /// Turns the image a quarter turn clockwise. An image without pixels is
    /// left as it is.
    pub fn rotate_right(&mut self)
        ensures
            final(self)@ == old(self)@.rotated_right(),
            final(self)@.wf(),
    {
        let (mut red, mut green, mut blue) = self.take_channels();
        red.rotate_right();
        green.rotate_right();
        blue.rotate_right();
        self.put_channels(red, green, blue);
    }

    /// The energy of every pixel: for an interior pixel its dual gradient,
    /// for a pixel of the border the largest interior gradient, or 1 where
    /// that is 0. An energy that is more than an `isize` holds is cut down
    /// to the largest `isize`.
    pub fn energy(&self) -> (energy: Matrix<isize>)
        ensures
            energy@ == self@.energy(),
            energy@.wf(),
            energy@.width == self@.width(),
            energy@.height() == self@.height(),
            forall|r: int, c: int|
                self@.is_interior(r, c) ==> #[trigger] energy@.rows[r][c] == capped(
                    self@.gradient(r, c),
                ),
            forall|r: int, c: int|
                self@.has(r, c) && !self@.is_interior(r, c) ==> #[trigger] energy@.rows[r][c]
                    == capped(self@.border_energy()),
            1 <= self@.border_energy(),
            forall|r: int, c: int|
                self@.is_interior(r, c) ==> 0 <= #[trigger] self@.gradient(r, c)
                    <= self@.border_energy(),
            self@.border_energy() == 1 || exists|r: int, c: int|
                self@.is_interior(r, c) && #[trigger] self@.gradient(r, c)
                    == self@.border_energy(),
    {
        let width = self.width();
        let height = self.height();
        let mut energy: Matrix<isize> = Matrix::new_filled(width, height, 0);
        let mut max_energy: isize = 0;
        proof {
            self@.lemma_peak_floor(0, 0, 1);
        }
        if height >= 3 && width >= 3 {
            let mut row: usize = 1;
            while row < height - 1
                invariant
                    1 <= row <= height - 1,
                    width >= 3,
                    self@.wf(),
                    self@.width() == width,
                    self@.height() == height,
                    energy@.wf(),
                    energy@.width == width,
                    energy@.height() == height,
                    max_energy == capped(self@.peak_upto(row as int)),
                    0 <= self@.peak_upto(row as int),
                    forall|r: int, c: int|
                        energy@.has(r, c) ==> #[trigger] energy@.rows[r][c] == (if self@.is_interior(
                            r,
                            c,
                        ) && r < row {
                            capped(self@.gradient(r, c))
                        } else {
                            0
                        }),
                decreases height - row,
            {
                let mut col: usize = 1;
                proof {
                    self@.lemma_peak_floor(row as int, 1, row as int);
                }
                while col < width - 1
                    invariant
                        1 <= row < height - 1,
                        1 <= col <= width - 1,
                        self@.wf(),
                        self@.width() == width,
                        self@.height() == height,
                        energy@.wf(),
                        energy@.width == width,
                        energy@.height() == height,
                        max_energy == capped(
                            larger(
                                self@.peak_upto(row as int),
                                self@.row_peak(row as int, col as int),
                            ),
                        ),
                        0 <= self@.peak_upto(row as int),
                        0 <= self@.row_peak(row as int, col as int),
                        forall|r: int, c: int|
                            energy@.has(r, c) ==> #[trigger] energy@.rows[r][c] == (
                            if self@.is_interior(r, c) && (r < row || (r == row && c < col)) {
                                capped(self@.gradient(r, c))
                            } else {
                                0
                            }),
                    decreases width - col,
                {
                    let n = self.get_pixel(row - 1, col).unwrap();
                    let s = self.get_pixel(row + 1, col).unwrap();
                    let e = self.get_pixel(row, col + 1).unwrap();
                    let w = self.get_pixel(row, col - 1).unwrap();
                    proof {
                        self@.lemma_gradient_floor(row as int, col as int);
                        assert(0 <= n.distance(s) && 0 <= e.distance(w)) by {
                            crate::pixel::lemma_sample_gap(n.r, s.r);
                            crate::pixel::lemma_sample_gap(n.g, s.g);
                            crate::pixel::lemma_sample_gap(n.b, s.b);
                            crate::pixel::lemma_sample_gap(e.r, w.r);
                            crate::pixel::lemma_sample_gap(e.g, w.g);
                            crate::pixel::lemma_sample_gap(e.b, w.b);
                        }
                    }

                    let energy_val = add_capped(
                        n.capped_difference(&s),
                        e.capped_difference(&w),
                    );
                    energy.put(row, col, energy_val);

                    max_energy = if energy_val > max_energy {
                        energy_val
                    } else {
                        max_energy
                    };
                    col += 1;
                    proof {
                        self@.lemma_peak_floor(row as int, col as int, row as int);
                    }
                }
                row += 1;
                proof {
                    self@.lemma_peak_floor(row as int, 1, row as int);
                }
            }
        } else {
            proof {
                if width < 3 {
                    self@.lemma_no_interior(height - 1);
                }
            }
        }
        assert(max_energy == capped(self@.peak()));
        proof {
            self@.lemma_peak_floor(0, 0, height - 1);
        }
        if max_energy == 0 {
            max_energy = 1;
        }
        let ghost inner = energy@;
        energy.fill_border(max_energy);
        proof {
            self@.lemma_border_energy();
            let goal = self@.energy();
            assert forall|r: int, c: int| goal.has(r, c) implies energy@.rows[r][c]
                == goal.rows[r][c] by {
                assert(inner.has(r, c));
                assert(inner.on_border(r, c) <==> !self@.is_interior(r, c));
                if self@.is_interior(r, c) {
                    self@.lemma_gradient_floor(r, c);
                }
            }
            energy@.lemma_equal_by_cells(goal);
            assert forall|r: int, c: int| self@.is_interior(r, c) implies #[trigger] energy@.rows[r][c]
                == capped(self@.gradient(r, c)) by {
                assert(goal.has(r, c));
                self@.lemma_gradient_floor(r, c);
            }
            assert forall|r: int, c: int|
                self@.has(r, c) && !self@.is_interior(r, c) implies #[trigger] energy@.rows[r][c]
                == capped(self@.border_energy()) by {
                assert(goal.has(r, c));
            }
        }
        energy
    }
}

/// The sum of two numbers that are not negative, as an `isize` holds it.
fn add_capped(a: isize, b: isize) -> (sum: isize)
    requires
        0 <= a,
        0 <= b,
    ensures
        sum == capped(a + b),
{
    if a > isize::MAX - b {
        isize::MAX
    } else {
        a + b
    }
}

impl Picture {
    /// The cheapest seam names one pixel of every row.
    pub proof fn lemma_seam_inside(self, r: int)
        requires
            self.width() > 0,
            0 <= r < self.height(),
        ensures
            0 <= self.seam_at(r) < self.width(),
            r < self.height() - 1 ==> self.seam_at(r + 1) - 1 <= self.seam_at(r) <= self.seam_at(
                r + 1,
            ) + 1,
        decreases self.height() - r,
    {
        let w = self.width() as int;
        if r >= self.height() - 1 {
            lemma_leftmost_min(self.cost_row(r), 0, w);
        } else {
            self.lemma_seam_inside(r + 1);
            let below = self.seam_at(r + 1);
            lemma_leftmost_min(self.cost_row(r), larger(below - 1, 0), smaller(below + 2, w));
        }
    }

    /// The cheapest seam has one column for every row, each of them a column
    /// of the image, and moves by at most one column from row to row.
    pub proof fn lemma_seam(self)
        requires
            self.width() > 0,
        ensures
            self.seam().len() == self.height(),
            self.red.holds_seam(self.seam()),
            forall|r: int|
                0 <= r < self.height() - 1 ==> -1 <= #[trigger] self.seam()[r] - self.seam()[r + 1]
                    <= 1,
    {
        assert forall|r: int| 0 <= r < self.height() implies 0 <= #[trigger] self.seam()[r]
            < self.width() by {
            self.lemma_seam_inside(r);
        }
        assert forall|r: int| 0 <= r < self.height() - 1 implies -1 <= #[trigger] self.seam()[r]
            - self.seam()[r + 1] <= 1 by {
            self.lemma_seam_inside(r);
        }
    }

    /// Taking the cheapest seam out makes the image one column narrower,
    /// leaves its height, and takes from every row exactly the pixel that
    /// the seam names: the others stay in their order.
    pub proof fn lemma_without_seam(self)
        requires
            self.wf(),
            self.width() > 0,
        ensures
            self.without_seam().wf(),
            self.without_seam().width() == self.width() - 1,
            self.without_seam().height() == self.height(),
            self.without_seam().max_intensity == self.max_intensity,
            self.without_seam().format == self.format,
            forall|r: int|
                0 <= r < self.height() ==> #[trigger] self.without_seam().pixel_row(r)
                    == self.pixel_row(r).remove(self.seam()[r]),
    {
        let seam = self.seam();
        let after = self.without_seam();
        self.lemma_seam();
        assert(self.green.holds_seam(seam));
        assert(self.blue.holds_seam(seam));
        self.red.lemma_without_seam(seam);
        self.green.lemma_without_seam(seam);
        self.blue.lemma_without_seam(seam);
        assert forall|r: int| 0 <= r < self.height() implies #[trigger] after.pixel_row(r)
            == self.pixel_row(r).remove(seam[r]) by {
            assert(0 <= seam[r] < self.width());
            assert(self.red.rows[r].len() == self.width());
            assert(self.green.rows[r].len() == self.width());
            assert(self.blue.rows[r].len() == self.width());
            assert(after.pixel_row(r) =~= self.pixel_row(r).remove(seam[r]));
        }
    }

    /// Taking the cheapest seam out leaves an image that fits wherever the
    /// image did.
    pub proof fn lemma_without_seam_fits(self, rows: nat)
        requires
            self.wf(),
            self.width() > 0,
            self.fits(rows),
        ensures
            self.without_seam().fits(rows),
    {
        let seam = self.seam();
        self.lemma_seam();
        assert(self.green.holds_seam(seam));
        assert(self.blue.holds_seam(seam));
        self.red.lemma_without_seam(seam);
        self.green.lemma_without_seam(seam);
        self.blue.lemma_without_seam(seam);
        let after = self.without_seam();
        assert forall|r: int, c: int| after.red.has(r, c) implies sample_load(
            #[trigger] after.red.rows[r][c],
            rows,
        ) <= isize::MAX by {
            assert(self.red.has(r, c) && self.red.has(r, c + 1));
        }
        assert forall|r: int, c: int| after.green.has(r, c) implies sample_load(
            #[trigger] after.green.rows[r][c],
            rows,
        ) <= isize::MAX by {
            assert(self.green.has(r, c) && self.green.has(r, c + 1));
        }
        assert forall|r: int, c: int| after.blue.has(r, c) implies sample_load(
            #[trigger] after.blue.rows[r][c],
            rows,
        ) <= isize::MAX by {
            assert(self.blue.has(r, c) && self.blue.has(r, c + 1));
        }
    }

    /// Carving to a width leaves an image of that width where the image was
    /// wider, and the image itself where it was not.
    pub proof fn lemma_carved_to_width(self, width: nat)
        requires
            self.wf(),
        ensures
            self.carved_to_width(width).wf(),
            self.carved_to_width(width).width() == smaller(self.width() as int, width as int),
            self.carved_to_width(width).height() == self.height(),
            self.carved_to_width(width).max_intensity == self.max_intensity,
            self.carved_to_width(width).format == self.format,
            self.width() <= width ==> self.carved_to_width(width) == self,
        decreases self.width(),
    {
        if self.width() > width {
            self.lemma_without_seam();
            self.without_seam().lemma_carved_to_width(width);
        }
    }

    /// Carving to a width a second time changes nothing.
    pub proof fn lemma_carve_width_twice(self, width: nat)
        requires
            self.wf(),
        ensures
            self.carved_to_width(width).carved_to_width(width) == self.carved_to_width(width),
    {
        self.lemma_carved_to_width(width);
    }

    /// Turning an image left and then right, or right and then left, gives
    /// the image back: its shape, its pixels and everything else.
    pub proof fn lemma_rotate_round_trip(self)
        requires
            self.wf(),
        ensures
            self.rotated_left().rotated_right() == self,
            self.rotated_right().rotated_left() == self,
            self.rotated_left().wf(),
            self.rotated_right().wf(),
    {
        self.red.lemma_rotate_left_right();
        self.green.lemma_rotate_left_right();
        self.blue.lemma_rotate_left_right();
        self.red.lemma_rotate_right_left();
        self.green.lemma_rotate_right_left();
        self.blue.lemma_rotate_right_left();
    }
}

impl Picture {
    /// In an image whose pixels all have one colour every interior pixel has
    /// energy 0 and every pixel of the border has energy 1.
    pub proof fn lemma_uniform_energy(
        width: nat,
        height: nat,
        max_intensity: nat,
        format: PPMFormat,
        color: PixelRGB,
    )
        ensures
            forall|r: int, c: int|
                #![trigger Picture::uniform(width, height, max_intensity, format, color).energy_at(
                    r,
                    c,
                )]
                0 <= r < height && 0 <= c < width ==> Picture::uniform(
                    width,
                    height,
                    max_intensity,
                    format,
                    color,
                ).energy_at(r, c) == (if 1 <= r < height - 1 && 1 <= c < width - 1 {
                    0int
                } else {
                    1int
                }),
    {
        let p = Picture::uniform(width, height, max_intensity, format, color);
        assert forall|r: int, c: int| p.is_interior(r, c) implies #[trigger] p.gradient(r, c)
            == 0 by {
            assert(p.pixel(r - 1, c) == color);
            assert(p.pixel(r + 1, c) == color);
            assert(p.pixel(r, c - 1) == color);
            assert(p.pixel(r, c + 1) == color);
        }
        p.lemma_peak_upto(p.height() - 1);
        if p.peak() != 0 {
            let (r, c) = choose|r: int, c: int|
                1 <= r < p.height() - 1 && 1 <= c < p.width() - 1 && #[trigger] p.gradient(r, c)
                    == p.peak();
            assert(p.is_interior(r, c));
        }
    }

    /// What fits over more rows fits over fewer.
    pub proof fn lemma_fits_fewer(self, fewer: nat, rows: nat)
        requires
            fewer <= rows,
            self.fits(rows),
        ensures
            self.fits(fewer),
    {
        assert forall|r: int, c: int| self.red.has(r, c) implies sample_load(
            #[trigger] self.red.rows[r][c],
            fewer,
        ) <= isize::MAX by {
            lemma_load_shrinks(self.red.rows[r][c], fewer, rows);
        }
        assert forall|r: int, c: int| self.green.has(r, c) implies sample_load(
            #[trigger] self.green.rows[r][c],
            fewer,
        ) <= isize::MAX by {
            lemma_load_shrinks(self.green.rows[r][c], fewer, rows);
        }
        assert forall|r: int, c: int| self.blue.has(r, c) implies sample_load(
            #[trigger] self.blue.rows[r][c],
            fewer,
        ) <= isize::MAX by {
            lemma_load_shrinks(self.blue.rows[r][c], fewer, rows);
        }
    }

    /// A quarter turn leaves an image that fits wherever the image did.
    pub proof fn lemma_rotated_fits(self, rows: nat)
        requires
            self.wf(),
            self.fits(rows),
        ensures
            self.rotated_left().fits(rows),
            self.rotated_right().fits(rows),
    {
        let l = self.rotated_left();
        let t = self.rotated_right();
        let w = self.width() as int;
        let h = self.height() as int;
        assert forall|r: int, c: int| l.red.has(r, c) implies sample_load(
            #[trigger] l.red.rows[r][c],
            rows,
        ) <= isize::MAX by {
            if w > 0 && h > 0 {
                assert(self.red.has(c, w - 1 - r));
            }
        }
        assert forall|r: int, c: int| l.green.has(r, c) implies sample_load(
            #[trigger] l.green.rows[r][c],
            rows,
        ) <= isize::MAX by {
            if w > 0 && h > 0 {
                assert(self.green.has(c, w - 1 - r));
            }
        }
        assert forall|r: int, c: int| l.blue.has(r, c) implies sample_load(
            #[trigger] l.blue.rows[r][c],
            rows,
        ) <= isize::MAX by {
            if w > 0 && h > 0 {
                assert(self.blue.has(c, w - 1 - r));
            }
        }
        assert forall|r: int, c: int| t.red.has(r, c) implies sample_load(
            #[trigger] t.red.rows[r][c],
            rows,
        ) <= isize::MAX by {
            if w > 0 && h > 0 {
                assert(self.red.has(h - 1 - c, r));
            }
        }
        assert forall|r: int, c: int| t.green.has(r, c) implies sample_load(
            #[trigger] t.green.rows[r][c],
            rows,
        ) <= isize::MAX by {
            if w > 0 && h > 0 {
                assert(self.green.has(h - 1 - c, r));
            }
        }
        assert forall|r: int, c: int| t.blue.has(r, c) implies sample_load(
            #[trigger] t.blue.rows[r][c],
            rows,
        ) <= isize::MAX by {
            if w > 0 && h > 0 {
                assert(self.blue.has(h - 1 - c, r));
            }
        }
    }

    /// Carving to a width leaves an image that fits wherever the image did.
    pub proof fn lemma_carved_fits(self, width: nat, rows: nat)
        requires
            self.wf(),
            self.fits(rows),
        ensures
            self.carved_to_width(width).fits(rows),
        decreases self.width(),
    {
        if self.width() > width {
            self.lemma_without_seam();
            self.lemma_without_seam_fits(rows);
            self.without_seam().lemma_carved_fits(width, rows);
        }
    }

    /// Where an image fits over as many rows as its longer side has, the path
    /// costs stay within `isize` at every step of carving it along both axes.
    pub proof fn lemma_carve_ready(self, new_width: nat, new_height: nat)
        requires
            self.wf(),
            self.fits(larger(self.width() as int, self.height() as int) as nat),
        ensures
            self.carvable(),
            self.rotated_left().carvable(),
            self.carved_to_width(new_width).rotated_left().carvable(),
    {
        let most = larger(self.width() as int, self.height() as int) as nat;
        self.lemma_fits_fewer(self.height(), most);
        self.lemma_rotated_fits(most);
        self.rotated_left().lemma_fits_fewer(self.rotated_left().height(), most);
        let carved = self.carved_to_width(new_width);
        self.lemma_carved_to_width(new_width);
        self.lemma_carved_fits(new_width, most);
        carved.lemma_rotated_fits(most);
        carved.rotated_left().lemma_fits_fewer(carved.rotated_left().height(), most);
    }
}

impl Picture {
    /// Whether `path` is a seam: one column of the image for every row, and
    /// from row to row a step of at most one column.
    pub open spec fn is_seam(self, path: Seq<int>) -> bool {
        &&& path.len() == self.height()
        &&& forall|r: int| 0 <= r < path.len() ==> 0 <= #[trigger] path[r] < self.width()
        &&& forall|r: int|
            0 < r < path.len() ==> -1 <= path[r - 1] - #[trigger] path[r] <= 1
    }

    /// The energy of the pixels of `path` in the first `rows` rows, added up.
    pub open spec fn seam_energy(self, path: Seq<int>, rows: int) -> int
        decreases rows,
    {
        if rows <= 0 {
            0
        } else {
            self.seam_energy(path, rows - 1) + self.energy_at(rows - 1, path[rows - 1])
        }
    }

    /// The cost of a pixel is at most the energy of any seam down to it.
    pub proof fn lemma_cost_is_least(self, path: Seq<int>, r: int)
        requires
            self.is_seam(path),
            0 <= r < self.height(),
        ensures
            self.cost_at(r, path[r]) <= self.seam_energy(path, r + 1),
        decreases r,
    {
        if r > 0 {
            self.lemma_cost_is_least(path, r - 1);
            assert(-1 <= path[r - 1] - path[r] <= 1);
            assert(0 <= path[r - 1] < self.width());
            assert(self.cost_above(r, path[r]) <= self.cost_at(r - 1, path[r - 1]));
        } else {
            assert(self.seam_energy(path, 0) == 0);
        }
    }

    /// In an image whose path costs stay within `isize`, the energy of the
    /// cheapest seam down to a row is the cost of the pixel at which it
    /// crosses the row.
    pub proof fn lemma_seam_cost(self, r: int)
        requires
            self.wf(),
            self.carvable(),
            self.width() > 0,
            0 <= r < self.height(),
        ensures
            self.seam_energy(self.seam(), r + 1) == self.cost_at(r, self.seam_at(r)),
        decreases r,
    {
        let w = self.width() as int;
        self.lemma_within_isize();
        if r > 0 {
            self.lemma_seam_cost(r - 1);
            self.lemma_seam_inside(r);
            self.lemma_seam_inside(r - 1);
            let below = self.seam_at(r);
            let lo = larger(below - 1, 0);
            let hi = smaller(below + 2, w);
            let row = self.cost_row(r - 1);
            lemma_leftmost_min(row, lo, hi);
            let at = self.seam_at(r - 1);
            assert(at == leftmost_min(row, lo, hi));
            assert(row[at] == self.cost_at(r - 1, at));
            assert(row[below] == self.cost_at(r - 1, below));
            assert(row[at] <= row[below]);
            if below > 0 {
                assert(row[below - 1] == self.cost_at(r - 1, below - 1));
                assert(row[at] <= row[below - 1]);
            }
            if below < w - 1 {
                assert(row[below + 1] == self.cost_at(r - 1, below + 1));
                assert(row[at] <= row[below + 1]);
            }
            assert(self.cost_above(r, below) == self.cost_at(r - 1, at));
            assert(self.seam()[r] == below);
        } else {
            assert(self.seam_energy(self.seam(), 0) == 0);
            assert(self.seam()[0] == self.seam_at(0));
        }
    }

    /// In an image whose path costs stay within `isize`, no seam has less
    /// energy than the cheapest seam.
    pub proof fn lemma_seam_is_cheapest(self, path: Seq<int>)
        requires
            self.wf(),
            self.carvable(),
            self.width() > 0,
            self.is_seam(path),
        ensures
            self.is_seam(self.seam()),
            self.seam_energy(self.seam(), self.height() as int) <= self.seam_energy(
                path,
                self.height() as int,
            ),
    {
        let rows = self.height() as int;
        let w = self.width() as int;
        self.lemma_seam();
        assert forall|r: int| 0 < r < self.seam().len() implies -1 <= self.seam()[r - 1]
            - #[trigger] self.seam()[r] <= 1 by {
            self.lemma_seam_inside(r - 1);
        }
        if rows > 0 {
            self.lemma_within_isize();
            self.lemma_seam_cost(rows - 1);
            self.lemma_cost_is_least(path, rows - 1);
            let row = self.cost_row(rows - 1);
            lemma_leftmost_min(row, 0, w);
            let at = self.seam_at(rows - 1);
            assert(row[at] == self.cost_at(rows - 1, at));
            assert(0 <= path[rows - 1] < w);
            assert(row[path[rows - 1]] == self.cost_at(rows - 1, path[rows - 1]));
            assert(row[at] <= row[path[rows - 1]]);
        }
    }
}

impl Image {
    /// The cost of every pixel: the least total energy of a connected path
    /// from the top row down to it. A cost that is more than an `isize`
    /// holds is cut down to the largest `isize`.
    pub fn vertical_cost(&self) -> (cost: Matrix<isize>)
        ensures
            cost@ == self@.cost(),
            cost@.wf(),
            cost@.width == self@.width(),
            cost@.height() == self@.height(),
    {
        let width = self.width();
        let height = self.height();
        let mut cost: Matrix<isize> = Matrix::new_filled(width, height, 0);
        if height == 0 || width == 0 {
            proof {
                cost@.lemma_equal_by_cells(self@.cost());
            }
            return cost;
        }
        let energy = self.energy();

        let mut col: usize = 0;
        while col < width
            invariant
                col <= width,
                height > 0,
                self@.wf(),
                self@.width() == width,
                self@.height() == height,
                energy@ == self@.energy(),
                cost@.wf(),
                cost@.width == width,
                cost@.height() == height,
                forall|r: int, c: int|
                    cost@.has(r, c) && r == 0 && c < col ==> #[trigger] cost@.rows[r][c] == capped(
                        self@.cost_at(r, c),
                    ),
            decreases width - col,
        {
            proof {
                self@.lemma_cost_floor(0, col as int);
            }
            let e = *energy.at(0, col);
            cost.put(0, col, e);
            col += 1;
        }

        let mut row: usize = 1;
        while row < height
            invariant
                1 <= row <= height,
                width > 0,
                self@.wf(),
                self@.width() == width,
                self@.height() == height,
                energy@ == self@.energy(),
                cost@.wf(),
                cost@.width == width,
                cost@.height() == height,
                forall|r: int, c: int|
                    cost@.has(r, c) && r < row ==> #[trigger] cost@.rows[r][c] == capped(
                        self@.cost_at(r, c),
                    ),
            decreases height - row,
        {
            let mut col: usize = 0;
            while col < width
                invariant
                    1 <= row < height,
                    col <= width,
                    width > 0,
                    self@.wf(),
                    self@.width() == width,
                    self@.height() == height,
                    energy@ == self@.energy(),
                    cost@.wf(),
                    cost@.width == width,
                    cost@.height() == height,
                    forall|r: int, c: int|
                        cost@.has(r, c) && (r < row || (r == row && c < col))
                            ==> #[trigger] cost@.rows[r][c] == capped(self@.cost_at(r, c)),
                decreases width - col,
            {
                proof {
                    self@.lemma_cost_floor(row as int, col as int);
                    self@.lemma_cost_floor(row - 1, col as int);
                    self@.lemma_cost_floor(row - 1, col - 1);
                    self@.lemma_cost_floor(row - 1, col + 1);
                    assert(cost@.has(row - 1, col as int));
                }
                let mut min_prev: isize = *cost.at(row - 1, col);

                if col > 0 {
                    assert(cost@.has(row - 1, col - 1));
                    let left = *cost.at(row - 1, col - 1);
                    if left < min_prev {
                        min_prev = left;
                    }
                }
                if col < width - 1 {
                    assert(cost@.has(row - 1, col + 1));
                    let right = *cost.at(row - 1, col + 1);
                    if right < min_prev {
                        min_prev = right;
                    }
                }
                assert(min_prev == capped(self@.cost_above(row as int, col as int)));
                let e = *energy.at(row, col);
                cost.put(row, col, add_capped(e, min_prev));
                col += 1;
            }
            row += 1;
        }
        proof {
            let goal = self@.cost();
            assert forall|r: int, c: int| goal.has(r, c) implies cost@.rows[r][c]
                == goal.rows[r][c] by {
                assert(cost@.has(r, c));
                self@.lemma_cost_floor(r, c);
            }
            cost@.lemma_equal_by_cells(goal);
        }
        cost
    }

    /// The vertical seam of least cost: for every row the column at which
    /// the seam crosses it. Of several columns of least cost the leftmost is
    /// taken, in the bottom row and at every step up.
    pub fn minimal_vertical_seam(&self) -> (seam: Vec<usize>)
        requires
            self@.width() > 0,
        ensures
            columns(seam@) == self@.seam(),
            seam@.len() == self@.height(),
            forall|r: int| 0 <= r < seam@.len() ==> #[trigger] seam@[r] < self@.width(),
            forall|r: int| 0 < r < seam@.len() ==> -1 <= seam@[r - 1] - #[trigger] seam@[r] <= 1,
            self@.wf(),
    {
        let width = self.width();
        let height = self.height();
        let mut seam: Vec<usize> = Vec::new();
        let mut fill: usize = 0;
        while fill < height
            invariant
                fill <= height,
                seam@.len() == fill,
            decreases height - fill,
        {
            seam.push(0);
            fill += 1;
        }
        if height == 0 {
            assert(columns(seam@) =~= self@.seam());
            return seam;
        }
        let cost = self.vertical_cost();
        proof {
            self@.lemma_cost_rows(cost@);
        }

        let found = cost.min_in_row_range(height - 1, 0, width);
        let mut current_col: usize = found.unwrap().0;
        proof {
            lemma_leftmost_min_unique(
                self@.cost_row(height - 1),
                0,
                width as int,
                current_col as int,
            );
        }
        seam.set(height - 1, current_col);

        let mut row: usize = height - 1;
        while row > 0
            invariant
                row < height,
                width > 0,
                self@.wf(),
                self@.width() == width,
                self@.height() == height,
                cost@ == self@.cost(),
                cost@.wf(),
                forall|r: int| 0 <= r < height ==> #[trigger] cost@.ranks(r) == self@.cost_row(r),
                seam@.len() == height,
                current_col == self@.seam_at(row as int),
                current_col < width,
                forall|r: int| row <= r < height ==> #[trigger] seam@[r] == self@.seam_at(r),
            decreases row,
        {
            row -= 1;
            let start: usize = if current_col > 0 {
                current_col - 1
            } else {
                0
            };
            let end: usize = if width - current_col > 2 {
                current_col + 2
            } else {
                width
            };
            let found = cost.min_in_row_range(row, start, end);
            let next: usize = found.unwrap().0;
            proof {
                lemma_leftmost_min_unique(
                    self@.cost_row(row as int),
                    start as int,
                    end as int,
                    next as int,
                );
            }
            current_col = next;
            seam.set(row, current_col);
        }
        proof {
            assert(columns(seam@) =~= self@.seam());
            self@.lemma_seam();
            assert forall|r: int| 0 <= r < seam@.len() implies #[trigger] seam@[r]
                < self@.width() by {
                assert(columns(seam@)[r] == self@.seam()[r]);
            }
            assert forall|r: int| 0 < r < seam@.len() implies -1 <= seam@[r - 1]
                - #[trigger] seam@[r] <= 1 by {
                assert(columns(seam@)[r] == self@.seam()[r]);
                assert(columns(seam@)[r - 1] == self@.seam()[r - 1]);
                self@.lemma_seam_inside(r - 1);
            }
        }
        seam
    }

    /// Takes the vertical seam of least cost out of the image: in every row
    /// the pixels to the right of the seam move one column to the left, and
    /// the image becomes one column narrower.
    pub fn remove_vertical_seam(&mut self)
        requires
            old(self)@.width() > 0,
        ensures
            final(self)@ == old(self)@.without_seam(),
            final(self)@.wf(),
            final(self)@.width() == old(self)@.width() - 1,
            final(self)@.height() == old(self)@.height(),
            final(self)@.max_intensity == old(self)@.max_intensity,
            final(self)@.format == old(self)@.format,
            forall|r: int|
                0 <= r < old(self)@.height() ==> 0 <= #[trigger] old(self)@.seam()[r] < old(
                    self,
                )@.width(),
            forall|r: int|
                0 <= r < old(self)@.height() ==> #[trigger] final(self)@.pixel_row(r) == old(
                    self,
                )@.pixel_row(r).remove(old(self)@.seam()[r]),
            forall|r: int, c: int|
                final(self)@.has(r, c) ==> #[trigger] final(self)@.pixel(r, c) == (if c < old(
                    self,
                )@.seam()[r] {
                    old(self)@.pixel(r, c)
                } else {
                    old(self)@.pixel(r, c + 1)
                }),
    {
        let seam = self.minimal_vertical_seam();
        let ghost before = self@;
        proof {
            before.lemma_seam();
            before.lemma_without_seam();
            assert(before.green.holds_seam(before.seam()));
            assert(before.blue.holds_seam(before.seam()));
            before.red.lemma_without_seam(before.seam());
            before.green.lemma_without_seam(before.seam());
            before.blue.lemma_without_seam(before.seam());
        }
        let (mut red, mut green, mut blue) = self.take_channels();
        red.remove_seam(&seam);
        green.remove_seam(&seam);
        blue.remove_seam(&seam);
        self.put_channels(red, green, blue);
        proof {
            assert forall|r: int, c: int| self@.has(r, c) implies #[trigger] self@.pixel(r, c) == (
            if c < before.seam()[r] {
                before.pixel(r, c)
            } else {
                before.pixel(r, c + 1)
            }) by {
                assert(self@.red.rows[r][c] == before.red.without_seam(before.seam()).rows[r][c]);
                assert(self@.green.rows[r][c] == before.green.without_seam(
                    before.seam(),
                ).rows[r][c]);
                assert(self@.blue.rows[r][c] == before.blue.without_seam(before.seam()).rows[r][c]);
            }
        }
    }

    /// Takes seams out until the image is `new_width` wide. An image that is
    /// no wider than that is left as it is.
    pub fn seam_carve_width(&mut self, new_width: usize)
        ensures
            final(self)@ == old(self)@.carved_to_width(new_width as nat),
            final(self)@.wf(),
            final(self)@.width() == smaller(old(self)@.width() as int, new_width as int),
            final(self)@.height() == old(self)@.height(),
            final(self)@.max_intensity == old(self)@.max_intensity,
            final(self)@.format == old(self)@.format,
    {
        let ghost before = self@;
        let start = self.width();
        proof {
            before.lemma_carved_to_width(new_width as nat);
        }
        if start <= new_width {
            return ;
        }
        let mut width: usize = start;
        while width > new_width
            invariant
                new_width <= width,
                self@.wf(),
                self@.width() == width,
                self@.carved_to_width(new_width as nat) == before.carved_to_width(new_width as nat),
            decreases width,
        {
            proof {
                self@.lemma_without_seam();
            }
            self.remove_vertical_seam();
            width -= 1;
        }
    }

    /// Takes seams out of the rows until the image is `new_height` high: the
    /// image is turned left, carved in width and turned back.
    pub fn seam_carve_height(&mut self, new_height: usize)
        ensures
            final(self)@ == old(self)@.carved_to_height(new_height as nat),
            final(self)@.wf(),
    {
        self.rotate_left();
        self.seam_carve_width(new_height);
        self.rotate_right();
    }

    /// Carves the image to the given width and then to the given height. The
    /// order matters: the rows are carved on the image that the carving of
    /// the columns has left.
    pub fn seam_carve(&mut self, new_width: usize, new_height: usize)
        ensures
            final(self)@ == old(self)@.carved(new_width as nat, new_height as nat),
            final(self)@.wf(),
    {
        self.seam_carve_width(new_width);
        self.seam_carve_height(new_height);
    }
}

} // verus!
