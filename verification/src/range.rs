//! The range of the samples: no transform of this library makes a sample
//! larger than the largest that the image held before.

use crate::grid::Grid;
use crate::image::Picture;
use crate::scale::{beside, blend, lemma_blend, lemma_split, ScaleMethod};
use vstd::prelude::*;

verus! {

impl Grid<usize> {
    /// Whether every cell is at most `limit`.
    pub open spec fn capped(self, limit: nat) -> bool {
        forall|r: int, c: int| self.has(r, c) ==> #[trigger] self.rows[r][c] <= limit
    }

    /// Turning, mirroring and transposing move cells and make none.
    pub proof fn lemma_moved_capped(self, limit: nat)
        requires
            self.wf(),
            self.capped(limit),
        ensures
            self.rotated_left().capped(limit),
            self.rotated_right().capped(limit),
            self.mirrored_x().capped(limit),
            self.mirrored_y().capped(limit),
            self.transposed().capped(limit),
    {
        let w = self.width as int;
        let h = self.height() as int;
        let moved = self.rotated_left();
        assert forall|r: int, c: int| moved.has(r, c) implies #[trigger] moved.rows[r][c]
            <= limit by {
            if w > 0 && h > 0 {
                assert(self.has(c, w - 1 - r));
            }
        }
        let moved = self.rotated_right();
        assert forall|r: int, c: int| moved.has(r, c) implies #[trigger] moved.rows[r][c]
            <= limit by {
            if w > 0 && h > 0 {
                assert(self.has(h - 1 - c, r));
            }
        }
        let moved = self.mirrored_x();
        assert forall|r: int, c: int| moved.has(r, c) implies #[trigger] moved.rows[r][c]
            <= limit by {
            assert(self.has(h - 1 - r, c));
        }
        let moved = self.mirrored_y();
        assert forall|r: int, c: int| moved.has(r, c) implies #[trigger] moved.rows[r][c]
            <= limit by {
            assert(self.has(r, w - 1 - c));
        }
        let moved = self.transposed();
        assert forall|r: int, c: int| moved.has(r, c) implies #[trigger] moved.rows[r][c]
            <= limit by {
            assert(self.has(c, r));
        }
    }

    /// A rectangle of a grid holds cells of the grid.
    pub proof fn lemma_window_capped(self, x: int, y: int, width: nat, height: nat, limit: nat)
        requires
            self.wf(),
            self.capped(limit),
            self.holds_window(x, y, width, height),
        ensures
            self.window(x, y, width, height).capped(limit),
    {
        let cut = self.window(x, y, width, height);
        assert forall|r: int, c: int| cut.has(r, c) implies #[trigger] cut.rows[r][c] <= limit by {
            assert(self.has(y + r, x + c));
        }
    }

    /// A grid without a seam holds cells of the grid.
    pub proof fn lemma_without_seam_capped(self, seam: Seq<int>, limit: nat)
        requires
            self.wf(),
            self.capped(limit),
            self.holds_seam(seam),
        ensures
            self.without_seam(seam).capped(limit),
    {
        let cut = self.without_seam(seam);
        self.lemma_without_seam(seam);
        assert forall|r: int, c: int| cut.has(r, c) implies #[trigger] cut.rows[r][c] <= limit by {
            assert(self.has(r, c) && self.has(r, c + 1));
        }
    }

    /// Scaling by the nearest cell takes cells of the grid; scaling by
    /// interpolation blends them, and a blend lies between what it blends.
    pub proof fn lemma_scaled_capped(self, width: nat, height: nat, limit: nat)
        requires
            self.wf(),
            self.capped(limit),
            self.width > 0,
            self.height() > 0,
            limit <= usize::MAX,
        ensures
            self.resampled(width, height).capped(limit),
            self.smoothed(width, height).capped(limit),
    {
        let w = self.width as int;
        let h = self.height() as int;
        let near = self.resampled(width, height);
        let smooth = self.smoothed(width, height);
        assert forall|r: int, c: int| near.has(r, c) implies #[trigger] near.rows[r][c]
            <= limit by {
            lemma_split(r, h, height as int);
            lemma_split(c, w, width as int);
            assert(self.has(r * h / (height as int), c * w / (width as int)));
        }
        assert forall|r: int, c: int| smooth.has(r, c) implies #[trigger] smooth.rows[r][c]
            <= limit by {
            lemma_split(r, h, height as int);
            lemma_split(c, w, width as int);
            let x0 = c * w / (width as int);
            let nx = c * w % (width as int);
            let x1 = beside(x0, w);
            let y0 = r * h / (height as int);
            let ny = r * h % (height as int);
            let y1 = beside(y0, h);
            assert(self.has(y0, x0) && self.has(y0, x1) && self.has(y1, x0) && self.has(y1, x1));
            let a = self.rows[y0][x0] as int;
            let b = self.rows[y0][x1] as int;
            let d = self.rows[y1][x0] as int;
            let e = self.rows[y1][x1] as int;
            lemma_blend(a, b, nx, width as int);
            lemma_blend(d, e, nx, width as int);
            let top = blend(a, b, nx, width as int);
            let bottom = blend(d, e, nx, width as int);
            lemma_blend(top, bottom, ny, height as int);
            assert(0 <= self.smooth_at(r, c, width, height) <= limit);
        }
    }
}

impl Picture {
    /// An image is in range when each of its channels is capped by its
    /// largest sample.
    pub proof fn lemma_in_range(self)
        requires
            self.wf(),
        ensures
            self.in_range() <==> self.red.capped(self.max_intensity) && self.green.capped(
                self.max_intensity,
            ) && self.blue.capped(self.max_intensity),
    {
        let m = self.max_intensity;
        if self.in_range() {
            assert forall|r: int, c: int| self.red.has(r, c) implies #[trigger] self.red.rows[r][c]
                <= m by {}
            assert forall|r: int, c: int| self.green.has(r, c) implies #[trigger] self.green.rows[r][
                c
            ] <= m by {
                assert(self.has(r, c));
            }
            assert forall|r: int, c: int| self.blue.has(r, c) implies #[trigger] self.blue.rows[r][
                c
            ] <= m by {
                assert(self.has(r, c));
            }
        }
        if self.red.capped(m) && self.green.capped(m) && self.blue.capped(m) {
            assert forall|r: int, c: int|
                #![trigger self.red.rows[r][c]]
                #![trigger self.green.rows[r][c]]
                #![trigger self.blue.rows[r][c]]
                self.has(r, c) implies self.red.rows[r][c] <= m && self.green.rows[r][c] <= m
                && self.blue.rows[r][c] <= m by {
                assert(self.green.has(r, c));
                assert(self.blue.has(r, c));
            }
        }
    }

    /// Turning, mirroring and transposing keep an image in range.
    pub proof fn lemma_moved_in_range(self)
        requires
            self.wf(),
            self.in_range(),
        ensures
            self.rotated_left().in_range(),
            self.rotated_right().in_range(),
            self.mirrored_x().in_range(),
            self.mirrored_y().in_range(),
            self.transposed().in_range(),
    {
        let m = self.max_intensity;
        self.lemma_in_range();
        self.red.lemma_moved_capped(m);
        self.green.lemma_moved_capped(m);
        self.blue.lemma_moved_capped(m);
        self.rotated_left().lemma_in_range();
        self.rotated_right().lemma_in_range();
        self.mirrored_x().lemma_in_range();
        self.mirrored_y().lemma_in_range();
        self.transposed().lemma_in_range();
    }

    /// Cropping keeps an image in range.
    pub proof fn lemma_window_in_range(self, x: int, y: int, width: nat, height: nat)
        requires
            self.wf(),
            self.in_range(),
            self.red.holds_window(x, y, width, height),
        ensures
            self.window(x, y, width, height).in_range(),
    {
        let m = self.max_intensity;
        self.lemma_in_range();
        self.red.lemma_window_capped(x, y, width, height, m);
        self.green.lemma_window_capped(x, y, width, height, m);
        self.blue.lemma_window_capped(x, y, width, height, m);
        self.window(x, y, width, height).lemma_in_range();
    }

    /// Scaling keeps an image in range: interpolation never leaves the range
    /// of the samples it blends.
    pub proof fn lemma_scaled_in_range(self, width: nat, height: nat, method: ScaleMethod)
        requires
            self.wf(),
            self.in_range(),
            self.max_intensity <= usize::MAX,
        ensures
            self.scaled(width, height, method).in_range(),
    {
        let m = self.max_intensity;
        if self.width() == 0 || self.height() == 0 || width == 0 || height == 0 {
        } else {
            self.lemma_in_range();
            self.red.lemma_scaled_capped(width, height, m);
            self.green.lemma_scaled_capped(width, height, m);
            self.blue.lemma_scaled_capped(width, height, m);
            self.resampled(width, height).lemma_in_range();
            self.smoothed(width, height).lemma_in_range();
        }
    }

    /// Taking seams out keeps an image in range.
    pub proof fn lemma_carved_in_range(self, width: nat)
        requires
            self.wf(),
            self.in_range(),
        ensures
            self.width() > 0 ==> self.without_seam().in_range(),
            self.carved_to_width(width).in_range(),
        decreases self.width(),
    {
        let m = self.max_intensity;
        if self.width() > 0 {
            self.lemma_in_range();
            self.lemma_seam();
            self.lemma_without_seam();
            let seam = self.seam();
            assert(self.green.holds_seam(seam));
            assert(self.blue.holds_seam(seam));
            self.red.lemma_without_seam_capped(seam, m);
            self.green.lemma_without_seam_capped(seam, m);
            self.blue.lemma_without_seam_capped(seam, m);
            self.without_seam().lemma_in_range();
            if self.width() > width {
                self.without_seam().lemma_carved_in_range(width);
            }
        }
    }
}

} // verus!
