//! The importance of each pixel and the cost of the cheapest way down to it:
//! the model that seam carving is stated over.

use crate::grid::Grid;
use crate::image::Picture;
use crate::order::{capped, larger, leftmost_min, smaller};
use crate::pixel::{lemma_sample_gap, sample_gap};
use vstd::prelude::*;

verus! {

/// Six times the square of a sample, `rows` times over: the most that a
/// column of `rows` energies can owe to that sample.
pub open spec fn sample_load(s: usize, rows: nat) -> int {
    6 * (s * s) * rows
}

/// Whether every cell of a channel can be carried through `rows` rows of
/// accumulated energy without leaving `isize`.
pub open spec fn channel_fits(g: Grid<usize>, rows: nat) -> bool {
    forall|r: int, c: int| g.has(r, c) ==> sample_load(#[trigger] g.rows[r][c], rows) <= isize::MAX
}

impl Picture {
    /// Whether every sample of the image is small enough for energies, added
    /// up over `rows` rows, to stay within `isize` whatever the pixels
    /// around.
    pub open spec fn fits(self, rows: nat) -> bool {
        &&& rows <= isize::MAX
        &&& channel_fits(self.red, rows)
        &&& channel_fits(self.green, rows)
        &&& channel_fits(self.blue, rows)
    }

    /// Whether every sample of the image is small enough for the path costs
    /// to stay within `isize`.
    pub open spec fn carvable(self) -> bool {
        self.fits(self.height())
    }

    /// A pixel with a neighbour on each of its four sides.
    pub open spec fn is_interior(self, r: int, c: int) -> bool {
        1 <= r < self.height() - 1 && 1 <= c < self.width() - 1
    }

    /// The dual-gradient energy of an interior pixel: the squared distance
    /// between the pixels above and below it plus the squared distance
    /// between those to its right and to its left.
    pub open spec fn gradient(self, r: int, c: int) -> int {
        self.pixel(r - 1, c).distance(self.pixel(r + 1, c)) + self.pixel(r, c + 1).distance(
            self.pixel(r, c - 1),
        )
    }

    /// The largest gradient in row `r` among the columns `1..cols`; 0 where
    /// there is none.
    pub open spec fn row_peak(self, r: int, cols: int) -> int
        decreases cols,
    {
        if cols <= 1 {
            0
        } else {
            larger(self.row_peak(r, cols - 1), self.gradient(r, cols - 1))
        }
    }

    /// The largest gradient among the interior pixels of the rows `1..rows`;
    /// 0 where there is none.
    pub open spec fn peak_upto(self, rows: int) -> int
        decreases rows,
    {
        if rows <= 1 {
            0
        } else {
            larger(self.peak_upto(rows - 1), self.row_peak(rows - 1, self.width() - 1))
        }
    }

    /// The largest gradient of an interior pixel; 0 where the image has no
    /// interior.
    pub open spec fn peak(self) -> int {
        self.peak_upto(self.height() - 1)
    }

    /// The energy given to every pixel of the border: the largest interior
    /// gradient, or 1 where that is 0.
    pub open spec fn border_energy(self) -> int {
        if self.peak() == 0 {
            1
        } else {
            self.peak()
        }
    }

    /// The energy of the pixel at `(r, c)`.
    pub open spec fn energy_at(self, r: int, c: int) -> int {
        if self.is_interior(r, c) {
            self.gradient(r, c)
        } else {
            self.border_energy()
        }
    }

    /// The energy of every pixel, as an `isize` holds it.
    pub open spec fn energy(self) -> Grid<isize> {
        Grid::build(
            self.width(),
            self.height(),
            |r: int, c: int| capped(self.energy_at(r, c)) as isize,
        )
    }

    /// The least of the costs of the up to three pixels of row `r - 1` from
    /// which a seam can step down to `(r, c)`.
    pub open spec fn cost_above(self, r: int, c: int) -> int
        decreases r, 0int,
    {
        if r <= 0 {
            0
        } else {
            let mid = self.cost_at(r - 1, c);
            let left = if c > 0 {
                smaller(mid, self.cost_at(r - 1, c - 1))
            } else {
                mid
            };
            if c < self.width() - 1 {
                smaller(left, self.cost_at(r - 1, c + 1))
            } else {
                left
            }
        }
    }

    /// The least total energy of a connected path from the top row down to
    /// `(r, c)`.
    pub open spec fn cost_at(self, r: int, c: int) -> int
        decreases r, 1int,
    {
        if r <= 0 {
            self.energy_at(0, c)
        } else {
            self.energy_at(r, c) + self.cost_above(r, c)
        }
    }

    /// The cost of every pixel, as an `isize` holds it.
    pub open spec fn cost(self) -> Grid<isize> {
        Grid::build(
            self.width(),
            self.height(),
            |r: int, c: int| capped(self.cost_at(r, c)) as isize,
        )
    }

    /// The costs of row `r`, as an `isize` holds them.
    pub open spec fn cost_row(self, r: int) -> Seq<int> {
        Seq::new(self.width(), |c: int| capped(self.cost_at(r, c)))
    }

    /// The column at which the cheapest seam crosses row `r`: in the bottom
    /// row the leftmost column of least cost; above it the leftmost column of
    /// least cost among those next to the column chosen one row below.
    pub open spec fn seam_at(self, r: int) -> int
        decreases self.height() - r,
    {
        if r >= self.height() - 1 {
            leftmost_min(self.cost_row(r), 0, self.width() as int)
        } else {
            let below = self.seam_at(r + 1);
            leftmost_min(
                self.cost_row(r),
                larger(below - 1, 0),
                smaller(below + 2, self.width() as int),
            )
        }
    }

    /// The cheapest seam: one column for every row.
    pub open spec fn seam(self) -> Seq<int> {
        Seq::new(self.height(), |r: int| self.seam_at(r))
    }

    /// The image with the cheapest seam taken out of every channel.
    pub open spec fn without_seam(self) -> Picture {
        self.with_channels(
            self.red.without_seam(self.seam()),
            self.green.without_seam(self.seam()),
            self.blue.without_seam(self.seam()),
        )
    }

    /// The image after seams have been taken out, one after the other, until
    /// it is no wider than `width`.
    pub open spec fn carved_to_width(self, width: nat) -> Picture
        decreases self.width(),
    {
        if self.width() <= width {
            self
        } else {
            self.without_seam().carved_to_width(width)
        }
    }

    pub open spec fn rotated_left(self) -> Picture {
        self.with_channels(
            self.red.rotated_left(),
            self.green.rotated_left(),
            self.blue.rotated_left(),
        )
    }

    pub open spec fn rotated_right(self) -> Picture {
        self.with_channels(
            self.red.rotated_right(),
            self.green.rotated_right(),
            self.blue.rotated_right(),
        )
    }

    /// The image after seams have been taken out of its rows until it is no
    /// higher than `height`: turned left, carved in width, turned back.
    pub open spec fn carved_to_height(self, height: nat) -> Picture {
        self.rotated_left().carved_to_width(height).rotated_right()
    }

    /// Width first, then height.
    pub open spec fn carved(self, width: nat, height: nat) -> Picture {
        self.carved_to_width(width).carved_to_height(height)
    }
}

/// A squared difference weighs no more than the heavier of its two samples.
pub proof fn lemma_gap_load(a: usize, b: usize, rows: nat)
    requires
        sample_load(a, rows) <= isize::MAX,
        sample_load(b, rows) <= isize::MAX,
    ensures
        0 <= sample_gap(a, b),
        6 * sample_gap(a, b) * rows <= isize::MAX,
{
    lemma_sample_gap(a, b);
    let g = sample_gap(a, b);
    if g <= a * a {
        assert(6 * g * rows <= 6 * (a * a) * rows) by (nonlinear_arith)
            requires
                g <= a * a,
                rows >= 0,
        ;
    } else {
        assert(6 * g * rows <= 6 * (b * b) * rows) by (nonlinear_arith)
            requires
                g <= b * b,
                rows >= 0,
        ;
    }
}

impl Picture {
    /// The distance between two pixels of an image that fits, `rows` times
    /// over, is at most half of what `isize` holds.
    pub proof fn lemma_distance_fits(self, r1: int, c1: int, r2: int, c2: int, rows: nat)
        requires
            self.wf(),
            self.fits(rows),
            self.has(r1, c1),
            self.has(r2, c2),
        ensures
            0 <= self.pixel(r1, c1).distance(self.pixel(r2, c2)),
            2 * self.pixel(r1, c1).distance(self.pixel(r2, c2)) * rows <= isize::MAX,
    {
        let p = self.pixel(r1, c1);
        let q = self.pixel(r2, c2);
        assert(self.green.has(r1, c1) && self.blue.has(r1, c1));
        assert(self.green.has(r2, c2) && self.blue.has(r2, c2));
        lemma_gap_load(p.r, q.r, rows);
        lemma_gap_load(p.g, q.g, rows);
        lemma_gap_load(p.b, q.b, rows);
        let x = sample_gap(p.r, q.r);
        let y = sample_gap(p.g, q.g);
        let z = sample_gap(p.b, q.b);
        assert(2 * (x + y + z) * rows <= isize::MAX) by (nonlinear_arith)
            requires
                6 * x * rows <= isize::MAX,
                6 * y * rows <= isize::MAX,
                6 * z * rows <= isize::MAX,
        ;
    }

    /// The gradient of an interior pixel of an image that fits, `rows` times
    /// over, stays within `isize`.
    pub proof fn lemma_gradient_fits(self, r: int, c: int, rows: nat)
        requires
            self.wf(),
            self.fits(rows),
            self.is_interior(r, c),
        ensures
            0 <= self.gradient(r, c),
            self.gradient(r, c) * rows <= isize::MAX,
    {
        self.lemma_distance_fits(r - 1, c, r + 1, c, rows);
        self.lemma_distance_fits(r, c + 1, r, c - 1, rows);
        let a = self.pixel(r - 1, c).distance(self.pixel(r + 1, c));
        let b = self.pixel(r, c + 1).distance(self.pixel(r, c - 1));
        assert((a + b) * rows <= isize::MAX) by (nonlinear_arith)
            requires
                2 * a * rows <= isize::MAX,
                2 * b * rows <= isize::MAX,
        ;
    }

    /// `row_peak` is the largest of the gradients it ranges over, or 0.
    pub proof fn lemma_row_peak(self, r: int, cols: int)
        ensures
            forall|c: int|
                1 <= c < cols ==> #[trigger] self.gradient(r, c) <= self.row_peak(r, cols),
            self.row_peak(r, cols) == 0 || exists|c: int|
                1 <= c < cols && #[trigger] self.gradient(r, c) == self.row_peak(r, cols),
        decreases cols,
    {
        if cols > 1 {
            self.lemma_row_peak(r, cols - 1);
            if self.row_peak(r, cols) != 0 {
                if self.row_peak(r, cols) == self.gradient(r, cols - 1) {
                } else {
                    let c = choose|c: int|
                        1 <= c < cols - 1 && #[trigger] self.gradient(r, c) == self.row_peak(
                            r,
                            cols - 1,
                        );
                    assert(self.gradient(r, c) == self.row_peak(r, cols));
                }
            }
        }
    }

    /// `peak_upto` is the largest of the gradients it ranges over, or 0.
    pub proof fn lemma_peak_upto(self, rows: int)
        ensures
            forall|r: int, c: int|
                1 <= r < rows && 1 <= c < self.width() - 1 ==> #[trigger] self.gradient(r, c)
                    <= self.peak_upto(rows),
            self.peak_upto(rows) == 0 || exists|r: int, c: int|
                1 <= r < rows && 1 <= c < self.width() - 1 && #[trigger] self.gradient(r, c)
                    == self.peak_upto(rows),
        decreases rows,
    {
        if rows > 1 {
            self.lemma_peak_upto(rows - 1);
            self.lemma_row_peak(rows - 1, self.width() - 1);
            if self.peak_upto(rows) != 0 {
                if self.peak_upto(rows) == self.peak_upto(rows - 1) {
                    let (r, c) = choose|r: int, c: int|
                        1 <= r < rows - 1 && 1 <= c < self.width() - 1 && #[trigger] self.gradient(
                            r,
                            c,
                        ) == self.peak_upto(rows - 1);
                    assert(self.gradient(r, c) == self.peak_upto(rows));
                } else {
                    let c = choose|c: int|
                        1 <= c < self.width() - 1 && #[trigger] self.gradient(rows - 1, c)
                            == self.row_peak(rows - 1, self.width() - 1);
                    assert(self.gradient(rows - 1, c) == self.peak_upto(rows));
                }
            }
        }
    }

    /// A gradient is not negative.
    pub proof fn lemma_gradient_floor(self, r: int, c: int)
        ensures
            0 <= self.gradient(r, c),
    {
        let n = self.pixel(r - 1, c);
        let s = self.pixel(r + 1, c);
        let e = self.pixel(r, c + 1);
        let w = self.pixel(r, c - 1);
        lemma_sample_gap(n.r, s.r);
        lemma_sample_gap(n.g, s.g);
        lemma_sample_gap(n.b, s.b);
        lemma_sample_gap(e.r, w.r);
        lemma_sample_gap(e.g, w.g);
        lemma_sample_gap(e.b, w.b);
    }

    /// No peak is negative.
    pub proof fn lemma_peak_floor(self, r: int, cols: int, rows: int)
        ensures
            0 <= self.row_peak(r, cols),
            0 <= self.peak_upto(rows),
        decreases larger(cols, 0) + larger(rows, 0),
    {
        if cols > 1 {
            self.lemma_peak_floor(r, cols - 1, 0);
        }
        if rows > 1 {
            self.lemma_peak_floor(r, 0, rows - 1);
        }
    }

    /// An energy is at least 0, the energy of the border at least 1, and a
    /// cost at least 0.
    pub proof fn lemma_cost_floor(self, r: int, c: int)
        ensures
            1 <= self.border_energy(),
            0 <= self.energy_at(r, c),
            0 <= self.cost_at(r, c),
            0 <= self.cost_above(r, c),
        decreases r,
    {
        self.lemma_peak_floor(0, 0, self.height() - 1);
        self.lemma_gradient_floor(r, c);
        if r > 0 {
            self.lemma_gradient_floor(0, c);
            self.lemma_cost_floor(r - 1, c);
            self.lemma_cost_floor(r - 1, c - 1);
            self.lemma_cost_floor(r - 1, c + 1);
        } else {
            self.lemma_gradient_floor(0, c);
        }
    }

    /// The energy given to the border is at least 1 and at least every
    /// interior gradient; it is 1 or the gradient of some interior pixel.
    pub proof fn lemma_border_energy(self)
        ensures
            1 <= self.border_energy(),
            forall|r: int, c: int|
                self.is_interior(r, c) ==> 0 <= #[trigger] self.gradient(r, c)
                    <= self.border_energy(),
            self.border_energy() == 1 || exists|r: int, c: int|
                self.is_interior(r, c) && #[trigger] self.gradient(r, c) == self.border_energy(),
    {
        self.lemma_peak_upto(self.height() - 1);
        assert forall|r: int, c: int| self.is_interior(r, c) implies 0 <= #[trigger] self.gradient(
            r,
            c,
        ) by {
            self.lemma_gradient_floor(r, c);
        }
        if self.peak() != 0 {
            let (r, c) = choose|r: int, c: int|
                1 <= r < self.height() - 1 && 1 <= c < self.width() - 1 && #[trigger] self.gradient(
                    r,
                    c,
                ) == self.peak();
            assert(self.is_interior(r, c));
        }
    }

    /// Every energy of an image that fits, `rows` times over, is at least 1
    /// and at most the border energy, which stays within `isize`.
    pub proof fn lemma_energy_fits(self, rows: nat)
        requires
            self.wf(),
            self.fits(rows),
            rows >= 1,
        ensures
            self.fits(1),
            1 <= self.border_energy(),
            self.border_energy() * rows <= isize::MAX,
            forall|r: int, c: int| 0 <= #[trigger] self.energy_at(r, c) <= self.border_energy(),
    {
        assert(self.fits(1)) by {
            assert forall|r: int, c: int| self.red.has(r, c) implies sample_load(
                #[trigger] self.red.rows[r][c],
                1,
            ) <= isize::MAX by {
                lemma_load_shrinks(self.red.rows[r][c], 1, rows);
            }
            assert forall|r: int, c: int| self.green.has(r, c) implies sample_load(
                #[trigger] self.green.rows[r][c],
                1,
            ) <= isize::MAX by {
                lemma_load_shrinks(self.green.rows[r][c], 1, rows);
            }
            assert forall|r: int, c: int| self.blue.has(r, c) implies sample_load(
                #[trigger] self.blue.rows[r][c],
                1,
            ) <= isize::MAX by {
                lemma_load_shrinks(self.blue.rows[r][c], 1, rows);
            }
        }
        self.lemma_border_energy();
        if self.border_energy() != 1 {
            let (r, c) = choose|r: int, c: int|
                self.is_interior(r, c) && #[trigger] self.gradient(r, c) == self.border_energy();
            self.lemma_gradient_fits(r, c, rows);
        }
    }

    /// A cost is at least 0 and at most the border energy once for every row
    /// down to its own.
    pub proof fn lemma_cost_fits(self, r: int, c: int)
        requires
            self.wf(),
            self.carvable(),
            0 <= r < self.height(),
        ensures
            0 <= self.cost_at(r, c) <= (r + 1) * self.border_energy(),
            0 <= self.cost_above(r, c) <= r * self.border_energy(),
            self.cost_at(r, c) <= isize::MAX,
            self.cost_above(r, c) <= isize::MAX,
        decreases r,
    {
        let b = self.border_energy();
        let h = self.height() as int;
        self.lemma_energy_fits(self.height());
        if r > 0 {
            self.lemma_cost_fits(r - 1, c);
            self.lemma_cost_fits(r - 1, c - 1);
            self.lemma_cost_fits(r - 1, c + 1);
        }
        assert((r + 1) * b == r * b + b) by (nonlinear_arith);
        assert((r + 1) * b <= h * b && r * b <= h * b) by (nonlinear_arith)
            requires
                0 <= r < h,
                0 <= b,
        ;
    }

    /// An image too narrow to have an interior has no peak.
    pub proof fn lemma_no_interior(self, rows: int)
        requires
            self.width() < 3,
        ensures
            self.peak_upto(rows) == 0,
        decreases rows,
    {
        if rows > 1 {
            self.lemma_no_interior(rows - 1);
            assert(self.row_peak(rows - 1, self.width() - 1) == 0) by {
                if self.width() == 2 {
                    assert(self.row_peak(rows - 1, 1) == 0);
                }
            }
        }
    }
}

/// What fits over more rows fits over fewer.
pub proof fn lemma_load_shrinks(s: usize, fewer: nat, rows: nat)
    requires
        fewer <= rows,
        sample_load(s, rows) <= isize::MAX,
    ensures
        sample_load(s, fewer) <= isize::MAX,
{
    assert(6 * (s * s) * fewer <= 6 * (s * s) * rows) by (nonlinear_arith)
        requires
            0 <= fewer <= rows,
    ;
}

impl Picture {
    /// The ranks of the rows of the cost matrix are the costs of the rows.
    pub proof fn lemma_cost_rows(self, cost: Grid<isize>)
        requires
            cost == self.cost(),
        ensures
            forall|r: int| 0 <= r < self.height() ==> #[trigger] cost.ranks(r) == self.cost_row(r),
    {
        assert forall|r: int| 0 <= r < self.height() implies #[trigger] cost.ranks(r)
            == self.cost_row(r) by {
            assert forall|c: int| 0 <= c < self.width() implies cost.ranks(r)[c] == self.cost_row(
                r,
            )[c] by {
                self.lemma_cost_floor(r, c);
            }
            assert(cost.ranks(r) =~= self.cost_row(r));
        }
    }

    /// In an image whose path costs stay within `isize` no energy and no
    /// cost is cut down: the matrices hold the energies and the costs
    /// themselves.
    pub proof fn lemma_within_isize(self)
        requires
            self.wf(),
            self.carvable(),
        ensures
            forall|r: int, c: int|
                0 <= r < self.height() ==> capped(#[trigger] self.cost_at(r, c)) == self.cost_at(
                    r,
                    c,
                ),
            forall|r: int, c: int|
                0 <= r < self.height() ==> capped(#[trigger] self.energy_at(r, c))
                    == self.energy_at(r, c),
    {
        if self.height() > 0 {
            self.lemma_energy_fits(self.height());
            assert(self.border_energy() <= self.border_energy() * self.height())
                by (nonlinear_arith)
                requires
                    self.height() >= 1,
                    self.border_energy() >= 0,
            ;
        }
        assert forall|r: int, c: int| 0 <= r < self.height() implies capped(
            #[trigger] self.cost_at(r, c),
        ) == self.cost_at(r, c) by {
            self.lemma_cost_fits(r, c);
        }
    }
}

} // verus!
