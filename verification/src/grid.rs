//! The mathematical model of a two-dimensional grid and of the transforms
//! applied to it. Nothing here is executable.

use crate::order::{is_leftmost_min, Ranked};
use vstd::prelude::*;

verus! {

/// A grid of `rows.len()` rows. When the grid is well formed every row holds
/// `width` cells; the width is kept apart from the rows so that a grid without
/// rows still has one.
#[verifier::ext_equal]
pub struct Grid<T> {
    pub width: nat,
    pub rows: Seq<Seq<T>>,
}

impl<T> Grid<T> {
    pub open spec fn height(self) -> nat {
        self.rows.len()
    }

    /// Every row has exactly `width` cells.
    pub open spec fn wf(self) -> bool {
        forall|r: int| 0 <= r < self.rows.len() ==> (#[trigger] self.rows[r]).len() == self.width
    }

    pub open spec fn has(self, r: int, c: int) -> bool {
        0 <= r < self.rows.len() && 0 <= c < self.width
    }

    /// The grid of the given shape whose cell `(r, c)` is `f(r, c)`.
    pub open spec fn build(width: nat, height: nat, f: spec_fn(int, int) -> T) -> Grid<T> {
        Grid { width, rows: Seq::new(height, |r: int| Seq::new(width, |c: int| f(r, c))) }
    }

    pub open spec fn filled(width: nat, height: nat, value: T) -> Grid<T> {
        Self::build(width, height, |r: int, c: int| value)
    }

    /// The grid that a row-major sequence of cells describes.
    pub open spec fn from_cells(width: nat, height: nat, cells: Seq<T>) -> Grid<T> {
        Self::build(width, height, |r: int, c: int| cells[r * width + c])
    }

    pub open spec fn with_cell(self, r: int, c: int, value: T) -> Grid<T> {
        Grid { width: self.width, rows: self.rows.update(r, self.rows[r].update(c, value)) }
    }

    pub open spec fn on_border(self, r: int, c: int) -> bool {
        r == 0 || r == self.rows.len() - 1 || c == 0 || c == self.width - 1
    }

    /// First and last row, first and last column overwritten with `value`.
    pub open spec fn with_border(self, value: T) -> Grid<T> {
        Self::build(
            self.width,
            self.height(),
            |r: int, c: int|
                if self.on_border(r, c) {
                    value
                } else {
                    self.rows[r][c]
                },
        )
    }

    /// Every row cut down to its first `width` cells.
    pub open spec fn trimmed(self, width: nat) -> Grid<T> {
        Grid { width, rows: Seq::new(self.height(), |r: int| self.rows[r].take(width as int)) }
    }

    /// The first `height` rows.
    pub open spec fn truncated(self, height: nat) -> Grid<T> {
        Grid { width: self.width, rows: self.rows.take(height as int) }
    }

    pub open spec fn transposed(self) -> Grid<T> {
        Self::build(self.height(), self.width, |r: int, c: int| self.rows[c][r])
    }

    /// Rows in reverse order: a reflection about the horizontal axis.
    pub open spec fn mirrored_x(self) -> Grid<T> {
        Self::build(
            self.width,
            self.height(),
            |r: int, c: int| self.rows[self.rows.len() - 1 - r][c],
        )
    }

    /// Columns in reverse order: a reflection about the vertical axis.
    pub open spec fn mirrored_y(self) -> Grid<T> {
        Self::build(self.width, self.height(), |r: int, c: int| self.rows[r][self.width - 1 - c])
    }

    /// A quarter turn counterclockwise. A grid without cells is left as it is.
    pub open spec fn rotated_left(self) -> Grid<T> {
        if self.width == 0 || self.height() == 0 {
            self
        } else {
            Self::build(
                self.height(),
                self.width,
                |r: int, c: int| self.rows[c][self.width - 1 - r],
            )
        }
    }

    /// A quarter turn clockwise. A grid without cells is left as it is.
    pub open spec fn rotated_right(self) -> Grid<T> {
        if self.width == 0 || self.height() == 0 {
            self
        } else {
            Self::build(
                self.height(),
                self.width,
                |r: int, c: int| self.rows[self.rows.len() - 1 - c][r],
            )
        }
    }

    /// The `width` by `height` rectangle whose top left corner is `(y, x)`.
    pub open spec fn window(self, x: int, y: int, width: nat, height: nat) -> Grid<T> {
        Self::build(width, height, |r: int, c: int| self.rows[y + r][x + c])
    }

    /// Whether the rectangle lies inside the grid.
    pub open spec fn holds_window(self, x: int, y: int, width: nat, height: nat) -> bool {
        0 <= x && x + width <= self.width && 0 <= y && y + height <= self.height()
    }

    /// Nearest-neighbour resampling: cell `(r, c)` of the result is the source
    /// cell at `(floor(r * h / height), floor(c * w / width))`.
    pub open spec fn resampled(self, width: nat, height: nat) -> Grid<T> {
        Self::build(
            width,
            height,
            |r: int, c: int|
                self.rows[r * self.height() / (height as int)][c * self.width / (width as int)],
        )
    }

    /// Whether `seam` names one cell of every row.
    pub open spec fn holds_seam(self, seam: Seq<int>) -> bool {
        &&& seam.len() == self.height()
        &&& forall|r: int| 0 <= r < seam.len() ==> 0 <= #[trigger] seam[r] < self.width
    }

    /// Cell `seam[r]` taken out of row `r`, for every row; what stood to its
    /// right moves one column to the left.
    pub open spec fn without_seam(self, seam: Seq<int>) -> Grid<T> {
        Grid {
            width: if self.width > 0 {
                (self.width - 1) as nat
            } else {
                0
            },
            rows: Seq::new(self.height(), |r: int| self.rows[r].remove(seam[r])),
        }
    }

    /// A well-formed grid is determined by its shape and its cells.
    pub proof fn lemma_equal_by_cells(self, other: Grid<T>)
        requires
            self.wf(),
            other.wf(),
            self.width == other.width,
            self.height() == other.height(),
            forall|r: int, c: int| self.has(r, c) ==> self.rows[r][c] == other.rows[r][c],
        ensures
            self == other,
    {
        assert forall|r: int| 0 <= r < self.rows.len() implies self.rows[r] =~= other.rows[r] by {
            assert(self.rows[r].len() == self.width);
            assert(other.rows[r].len() == self.width);
            assert forall|c: int| 0 <= c < self.rows[r].len() implies self.rows[r][c]
                == other.rows[r][c] by {
                assert(self.has(r, c));
            }
        }
        assert(self.rows =~= other.rows);
    }

    /// Turning a grid left and then right gives the grid back.
    pub proof fn lemma_rotate_left_right(self)
        requires
            self.wf(),
        ensures
            self.rotated_left().rotated_right() == self,
    {
        if self.width == 0 || self.height() == 0 {
        } else {
            let l = self.rotated_left();
            assert(l.width == self.height());
            assert(l.height() == self.width);
            let back = l.rotated_right();
            assert(back.wf());
            assert forall|r: int, c: int| self.has(r, c) implies back.rows[r][c]
                == self.rows[r][c] by {
                assert(l.rows[self.width - 1 - c][r] == self.rows[r][c]);
            }
            back.lemma_equal_by_cells(self);
        }
    }

    /// Turning a grid right and then left gives the grid back.
    pub proof fn lemma_rotate_right_left(self)
        requires
            self.wf(),
        ensures
            self.rotated_right().rotated_left() == self,
    {
        if self.width == 0 || self.height() == 0 {
        } else {
            let t = self.rotated_right();
            assert(t.width == self.height());
            assert(t.height() == self.width);
            let back = t.rotated_left();
            assert(back.wf());
            assert forall|r: int, c: int| self.has(r, c) implies back.rows[r][c]
                == self.rows[r][c] by {
                assert(t.rows[c][self.height() - 1 - r] == self.rows[r][c]);
            }
            back.lemma_equal_by_cells(self);
        }
    }

    /// Transposing twice gives the grid back.
    pub proof fn lemma_transpose_twice(self)
        requires
            self.wf(),
        ensures
            self.transposed().transposed() == self,
    {
        let back = self.transposed().transposed();
        assert forall|r: int, c: int| self.has(r, c) implies back.rows[r][c] == self.rows[r][c] by {
            assert(self.transposed().rows[c][r] == self.rows[r][c]);
        }
        back.lemma_equal_by_cells(self);
    }

    /// Either reflection undoes itself.
    pub proof fn lemma_mirror_twice(self)
        requires
            self.wf(),
        ensures
            self.mirrored_x().mirrored_x() == self,
            self.mirrored_y().mirrored_y() == self,
    {
        let bx = self.mirrored_x().mirrored_x();
        assert forall|r: int, c: int| self.has(r, c) implies bx.rows[r][c] == self.rows[r][c] by {
            assert(self.mirrored_x().rows[self.height() - 1 - r][c] == self.rows[r][c]);
        }
        bx.lemma_equal_by_cells(self);
        let by = self.mirrored_y().mirrored_y();
        assert forall|r: int, c: int| self.has(r, c) implies by.rows[r][c] == self.rows[r][c] by {
            assert(self.mirrored_y().rows[r][self.width - 1 - c] == self.rows[r][c]);
        }
        by.lemma_equal_by_cells(self);
    }

    /// Taking a seam out keeps the grid well formed, makes it one column
    /// narrower, and leaves in every row the cells to the left of the seam
    /// where they were and those to its right one column further left.
    pub proof fn lemma_without_seam(self, seam: Seq<int>)
        requires
            self.wf(),
            self.holds_seam(seam),
        ensures
            self.without_seam(seam).wf(),
            self.without_seam(seam).height() == self.height(),
            self.width > 0 ==> self.without_seam(seam).width == self.width - 1,
            forall|r: int, c: int|
                #![trigger self.without_seam(seam).rows[r][c]]
                0 <= r < self.height() && 0 <= c < self.width - 1 ==> self.without_seam(
                    seam,
                ).rows[r][c] == (if c < seam[r] {
                    self.rows[r][c]
                } else {
                    self.rows[r][c + 1]
                }),
    {
        let g = self.without_seam(seam);
        assert forall|r: int| 0 <= r < g.rows.len() implies (#[trigger] g.rows[r]).len()
            == g.width by {
            assert(self.rows[r].len() == self.width);
            assert(0 <= seam[r] < self.width);
        }
        assert forall|r: int, c: int|
            #![trigger self.without_seam(seam).rows[r][c]]
            0 <= r < self.height() && 0 <= c < self.width - 1 implies g.rows[r][c] == (if c
                < seam[r] {
                self.rows[r][c]
            } else {
                self.rows[r][c + 1]
            }) by {
            assert(self.rows[r].len() == self.width);
            assert(0 <= seam[r] < self.width);
        }
    }
}

impl<T: Ranked> Grid<T> {
    /// The ranks of the cells of row `r`.
    pub open spec fn ranks(self, r: int) -> Seq<int> {
        self.rows[r].map_values(|v: T| v.rank())
    }

    /// Whether `(r, c)` is, in row-major order, the first of the cells of
    /// least rank.
    pub open spec fn first_least_at(self, r: int, c: int) -> bool {
        &&& self.has(r, c)
        &&& forall|i: int, j: int|
            self.has(i, j) ==> self.rows[r][c].rank() <= (#[trigger] self.rows[i][j]).rank()
        &&& forall|i: int, j: int|
            self.has(i, j) && (i < r || (i == r && j < c)) ==> self.rows[r][c].rank() < (
            #[trigger] self.rows[i][j]).rank()
    }

    /// Whether `(r, c)` is, in row-major order, the last of the cells of
    /// greatest rank.
    pub open spec fn last_greatest_at(self, r: int, c: int) -> bool {
        &&& self.has(r, c)
        &&& forall|i: int, j: int|
            self.has(i, j) ==> (#[trigger] self.rows[i][j]).rank() <= self.rows[r][c].rank()
        &&& forall|i: int, j: int|
            self.has(i, j) && (r < i || (i == r && c < j)) ==> (#[trigger] self.rows[i][j]).rank()
                < self.rows[r][c].rank()
    }

    /// Whether `c` is the leftmost column in `lo..hi` at which row `r` is
    /// least.
    pub open spec fn leftmost_least_at(self, r: int, lo: int, hi: int, c: int) -> bool {
        is_leftmost_min(self.ranks(r), lo, hi, c)
    }
}

} // verus!
