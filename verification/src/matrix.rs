//! A two-dimensional matrix stored row by row in one vector.

use crate::error::ImageError;
use crate::grid::Grid;
use crate::order::Ranked;
use vstd::prelude::*;

verus! {

/// A matrix of `height` rows and `width` columns. Its cells stand row after
/// row in `datum`, which always holds exactly `width * height` of them.
#[derive(Debug)]
pub struct Matrix<T> {
    width: usize,
    height: usize,
    datum: Vec<T>,
}

/// Where cell `(r, c)` of a matrix `w` columns wide stands in its vector.
spec fn flat(r: int, c: int, w: int) -> int {
    r * w + c
}

proof fn lemma_flat_inside(r: int, c: int, w: int, h: int)
    requires
        0 <= r < h,
        0 <= c < w,
    ensures
        0 <= r * w,
        r * w + w <= w * h,
        0 <= flat(r, c, w) < w * h,
        flat(r, c, w) == r * w + c,
{
    assert(0 <= r * w && r * w + w <= w * h) by (nonlinear_arith)
        requires
            0 <= r < h,
            0 < w,
    ;
}

proof fn lemma_flat_apart(r1: int, c1: int, r2: int, c2: int, w: int)
    requires
        0 <= c1 < w,
        0 <= c2 < w,
        flat(r1, c1, w) == flat(r2, c2, w),
    ensures
        r1 == r2,
        c1 == c2,
{
    assert(r1 == r2) by (nonlinear_arith)
        requires
            0 <= c1 < w,
            0 <= c2 < w,
            r1 * w + c1 == r2 * w + c2,
    ;
}

proof fn lemma_flat_next_row(r: int, w: int)
    ensures
        flat(r, w, w) == flat(r + 1, 0, w),
        flat(0, 0, w) == 0,
{
    assert(r * w + w == (r + 1) * w) by (nonlinear_arith);
}

proof fn lemma_area_swap(w: int, h: int)
    ensures
        w * h == h * w,
{
    assert(w * h == h * w) by (nonlinear_arith);
}

proof fn lemma_area_inside(w2: int, h2: int, w: int, h: int)
    requires
        0 <= w2 <= w,
        0 <= h2 <= h,
    ensures
        0 <= w2 * h2 <= w * h,
{
    assert(0 <= w2 * h2 <= w * h) by (nonlinear_arith)
        requires
            0 <= w2 <= w,
            0 <= h2 <= h,
    ;
}

/// Whether `cells` holds, row after row, the first `cells.len()` cells of
/// `goal`.
spec fn begins<T>(cells: Seq<T>, goal: Grid<T>) -> bool {
    forall|r: int, c: int|
        goal.has(r, c) && #[trigger] flat(r, c, goal.width as int) < cells.len() ==> cells[flat(
            r,
            c,
            goal.width as int,
        )] == goal.rows[r][c]
}

proof fn lemma_begins_push<T>(cells: Seq<T>, goal: Grid<T>, r: int, c: int, value: T)
    requires
        begins(cells, goal),
        goal.has(r, c),
        cells.len() == flat(r, c, goal.width as int),
        value == goal.rows[r][c],
    ensures
        begins(cells.push(value), goal),
{
    let w = goal.width as int;
    let next = cells.push(value);
    assert forall|i: int, j: int| goal.has(i, j) && #[trigger] flat(i, j, w) < next.len() implies
        next[flat(i, j, w)] == goal.rows[i][j] by {
        lemma_flat_inside(i, j, w, goal.height() as int);
        if flat(i, j, w) == cells.len() {
            lemma_flat_apart(i, j, r, c, w);
        }
    }
}

proof fn lemma_begins_all<T>(made: Matrix<T>, goal: Grid<T>)
    requires
        goal.wf(),
        made.width == goal.width,
        made.height == goal.height(),
        made.datum@.len() == goal.width * goal.height(),
        begins(made.datum@, goal),
    ensures
        made@ == goal,
{
    assert forall|r: int, c: int| made@.has(r, c) implies made@.rows[r][c] == goal.rows[r][c] by {
        lemma_flat_inside(r, c, goal.width as int, goal.height() as int);
    }
    made@.lemma_equal_by_cells(goal);
}

/// How a transform finds, for a cell of its result, the cell of the source
/// that goes there.
#[derive(Clone, Copy)]
enum Pick {
    Transpose,
    MirrorX,
    MirrorY,
    TurnLeft,
    TurnRight,
    Window { x: usize, y: usize },
    Nearest { width: usize, height: usize },
}

impl Pick {
    /// The row and column in `src` of the cell that goes to `(r, c)`.
    spec fn source<T>(self, src: Grid<T>, r: int, c: int) -> (int, int) {
        match self {
            Pick::Transpose => (c, r),
            Pick::MirrorX => (src.height() - 1 - r, c),
            Pick::MirrorY => (r, src.width - 1 - c),
            Pick::TurnLeft => (c, src.width - 1 - r),
            Pick::TurnRight => (src.height() - 1 - c, r),
            Pick::Window { x, y } => (y + r, x + c),
            Pick::Nearest { width, height } => (
                r * src.height() / (height as int),
                c * src.width / (width as int),
            ),
        }
    }

    fn locate<T>(self, src_width: usize, src_height: usize, r: usize, c: usize, Ghost(src): Ghost<
        Grid<T>,
    >) -> (spot: (usize, usize))
        requires
            src.width == src_width,
            src.height() == src_height,
            src.has(self.source(src, r as int, c as int).0, self.source(src, r as int, c as int).1),
            self matches Pick::Nearest { width, height } ==> c < width && r < height,
        ensures
            (spot.0 as int, spot.1 as int) == self.source(src, r as int, c as int),
    {
        match self {
            Pick::Transpose => (c, r),
            Pick::MirrorX => (src_height - 1 - r, c),
            Pick::MirrorY => (r, src_width - 1 - c),
            Pick::TurnLeft => (c, src_width - 1 - r),
            Pick::TurnRight => (src_height - 1 - c, r),
            Pick::Window { x, y } => (y + r, x + c),
            Pick::Nearest { width, height } => (
                scale_index(r, src_height, height),
                scale_index(c, src_width, width),
            ),
        }
    }
}

/// `floor(i * from / to)`, computed without overflow.
fn scale_index(i: usize, from: usize, to: usize) -> (at: usize)
    requires
        i < to,
    ensures
        at == i * from / (to as int),
        from > 0 ==> at < from,
        at <= from,
{
    proof {
        lemma_scale_index(i as int, from as int, to as int);
    }
    assert(i * from <= 0xffff_ffff_ffff_ffff * 0xffff_ffff_ffff_ffff) by (nonlinear_arith)
        requires
            0 <= i <= 0xffff_ffff_ffff_ffff,
            0 <= from <= 0xffff_ffff_ffff_ffff,
    ;
    let wide: u128 = (i as u128) * (from as u128) / (to as u128);
    wide as usize
}

proof fn lemma_scale_index(i: int, from: int, to: int)
    requires
        0 <= i < to,
        0 <= from,
    ensures
        0 <= i * from <= to * from,
        0 <= i * from / to <= from,
        from > 0 ==> i * from / to < from,
{
    assert(0 <= i * from <= to * from) by (nonlinear_arith)
        requires
            0 <= i < to,
            0 <= from,
    ;
    if from > 0 {
        assert(i * from < to * from) by (nonlinear_arith)
            requires
                0 <= i < to,
                0 < from,
        ;
        assert(to * from == from * to) by (nonlinear_arith);
        vstd::arithmetic::div_mod::lemma_div_by_multiple_is_strongly_ordered(
            i * from,
            from * to,
            from,
            to,
        );
        vstd::arithmetic::div_mod::lemma_div_by_multiple(from, to);
    } else {
        assert(i * from == 0) by (nonlinear_arith)
            requires
                from == 0,
        ;
    }
    vstd::arithmetic::div_mod::lemma_div_pos_is_pos(i * from, to);
}

impl<T> View for Matrix<T> {
    type V = Grid<T>;

    closed spec fn view(&self) -> Grid<T> {
        Grid::build(
            self.width as nat,
            self.height as nat,
            |r: int, c: int| self.datum@[flat(r, c, self.width as int)],
        )
    }
}

impl<T> Matrix<T> {
    #[verifier::type_invariant]
    spec fn inv(&self) -> bool {
        self.datum@.len() == self.width * self.height <= usize::MAX
    }

    pub fn width(&self) -> (w: usize)
        ensures
            w == self@.width,
            self@.wf(),
            self@.width * self@.height() <= usize::MAX,
    {
        proof {
            use_type_invariant(self);
        }
        self.width
    }

    pub fn height(&self) -> (h: usize)
        ensures
            h == self@.height(),
            self@.wf(),
            self@.width * self@.height() <= usize::MAX,
    {
        proof {
            use_type_invariant(self);
        }
        self.height
    }

    /// The cell at `(row, col)`, or nothing where the matrix has no such cell.
    pub fn get(&self, row: usize, col: usize) -> (cell: Option<&T>)
        ensures
            self@.has(row as int, col as int) ==> cell == Some(&self@.rows[row as int][col as int]),
            !self@.has(row as int, col as int) ==> cell is None,
    {
        if row < self.height && col < self.width {
            Some(self.at(row, col))
        } else {
            None
        }
    }

    /// The cell at `(row, col)` of a matrix that has one there.
    pub fn at(&self, row: usize, col: usize) -> (cell: &T)
        requires
            self@.has(row as int, col as int),
        ensures
            *cell == self@.rows[row as int][col as int],
    {
        proof {
            use_type_invariant(self);
            lemma_flat_inside(row as int, col as int, self.width as int, self.height as int);
        }
        &self.datum[row * self.width + col]
    }

    /// Overwrites the cell at `(row, col)` of a matrix that has one there.
    pub fn put(&mut self, row: usize, col: usize, value: T)
        requires
            old(self)@.has(row as int, col as int),
        ensures
            final(self)@ == old(self)@.with_cell(row as int, col as int, value),
            final(self)@.wf(),
        no_unwind
    {
        proof {
            use_type_invariant(&*self);
            lemma_flat_inside(row as int, col as int, self.width as int, self.height as int);
        }
        let i: usize = row * self.width + col;
        self.datum[i] = value;
        proof {
            let w = self.width as int;
            let goal = old(self)@.with_cell(row as int, col as int, value);
            assert forall|r: int, c: int| self@.has(r, c) implies self@.rows[r][c]
                == goal.rows[r][c] by {
                lemma_flat_inside(r, c, w, self.height as int);
                if flat(r, c, w) == i {
                    lemma_flat_apart(r, c, row as int, col as int, w);
                }
            }
            assert(goal.wf()) by {
                assert forall|r: int| 0 <= r < goal.rows.len() implies (
                #[trigger] goal.rows[r]).len() == goal.width by {
                    assert(old(self)@.rows[r].len() == goal.width);
                }
            }
            self@.lemma_equal_by_cells(goal);
        }
    }

    /// Overwrites the cell at `(row, col)`; does nothing where the matrix has
    /// no such cell.
    pub fn set(&mut self, row: usize, col: usize, value: T)
        ensures
            old(self)@.has(row as int, col as int) ==> final(self)@ == old(self)@.with_cell(
                row as int,
                col as int,
                value,
            ),
            !old(self)@.has(row as int, col as int) ==> final(self)@ == old(self)@,
            final(self)@.wf(),
    {
        if row < self.height && col < self.width {
            self.put(row, col, value);
        }
    }

    /// The matrix that the row-major `data` describes, which must hold
    /// exactly `width * height` cells.
    pub fn from_vec(width: usize, height: usize, data: Vec<T>) -> (made: Result<Self, ImageError>)
        ensures
            data@.len() == width * height ==> made is Ok && made->Ok_0@ == Grid::from_cells(
                width as nat,
                height as nat,
                data@,
            ),
            data@.len() != width * height ==> made == Err::<Self, ImageError>(
                ImageError::ShapeMismatch,
            ),
    {
        let given: usize = data.len();
        match width.checked_mul(height) {
            Some(n) => {
                if given == n {
                    let made = Matrix { width, height, datum: data };
                    proof {
                        let goal = Grid::from_cells(width as nat, height as nat, data@);
                        assert forall|r: int, c: int| made@.has(r, c) implies made@.rows[r][c]
                            == goal.rows[r][c] by {
                            lemma_flat_inside(r, c, width as int, height as int);
                        }
                        made@.lemma_equal_by_cells(goal);
                    }
                    Ok(made)
                } else {
                    Err(ImageError::ShapeMismatch)
                }
            },
            None => Err(ImageError::ShapeMismatch),
        }
    }

    /// Gives the cells back, row after row.
    pub fn into_vec(self) -> (data: Vec<T>)
        ensures
            data@.len() == self@.width * self@.height(),
            self@ == Grid::from_cells(self@.width, self@.height(), data@),
    {
        proof {
            use_type_invariant(&self);
            let goal = Grid::from_cells(self@.width, self@.height(), self.datum@);
            assert forall|r: int, c: int| self@.has(r, c) implies self@.rows[r][c]
                == goal.rows[r][c] by {
                lemma_flat_inside(r, c, self.width as int, self.height as int);
            }
            self@.lemma_equal_by_cells(goal);
        }
        self.datum
    }
}

impl<T: Copy> Matrix<T> {
    /// A matrix of the given shape with `value` in every cell.
    pub fn new_filled(width: usize, height: usize, value: T) -> (made: Self)
        requires
            width * height <= usize::MAX,
        ensures
            made@ == Grid::filled(width as nat, height as nat, value),
            made@.wf(),
    {
        let n: usize = width * height;
        let mut datum: Vec<T> = Vec::new();
        let mut i: usize = 0;
        while i < n
            invariant
                i <= n,
                datum@.len() == i,
                forall|k: int| 0 <= k < i ==> datum@[k] == value,
            decreases n - i,
        {
            datum.push(value);
            i += 1;
        }
        let made = Matrix { width, height, datum };
        proof {
            let goal = Grid::filled(width as nat, height as nat, value);
            assert forall|r: int, c: int| made@.has(r, c) implies made@.rows[r][c]
                == goal.rows[r][c] by {
                lemma_flat_inside(r, c, width as int, height as int);
            }
            made@.lemma_equal_by_cells(goal);
        }
        made
    }

    /// A matrix of the given shape with the default value of `T` in every
    /// cell.
    pub fn new(width: usize, height: usize) -> (made: Self) where T: Default
        requires
            width * height <= usize::MAX,
        ensures
            exists|value: T|
                call_ensures(T::default, (), value) && made@ == #[trigger] Grid::filled(
                    width as nat,
                    height as nat,
                    value,
                ),
            made@.wf(),
    {
        let value = T::default();
        Self::new_filled(width, height, value)
    }

    /// Overwrites every cell with `value`.
    pub fn fill(&mut self, value: T)
        ensures
            final(self)@ == Grid::filled(old(self)@.width, old(self)@.height(), value),
            final(self)@.wf(),
        no_unwind
    {
        proof {
            use_type_invariant(&*self);
        }
        let n: usize = self.datum.len();
        let mut i: usize = 0;
        while i < n
            invariant
                i <= n,
                self.datum@.len() == n,
                self.width == old(self).width,
                self.height == old(self).height,
                n == self.width * self.height,
                forall|k: int| 0 <= k < i ==> self.datum@[k] == value,
            decreases n - i,
        {
            self.datum[i] = value;
            i += 1;
        }
        proof {
            let goal = Grid::filled(old(self)@.width, old(self)@.height(), value);
            assert forall|r: int, c: int| self@.has(r, c) implies self@.rows[r][c]
                == goal.rows[r][c] by {
                lemma_flat_inside(r, c, self.width as int, self.height as int);
            }
            self@.lemma_equal_by_cells(goal);
        }
    }

    /// Overwrites the first and last row and the first and last column with
    /// `value`. A matrix without cells is left as it is.
    pub fn fill_border(&mut self, value: T)
        ensures
            final(self)@ == old(self)@.with_border(value),
            final(self)@.wf(),
    {
        let width = self.width;
        let height = self.height;
        let ghost before = self@;
        if width == 0 || height == 0 {
            proof {
                before.lemma_equal_by_cells(before.with_border(value));
            }
            return ;
        }
        let mut col: usize = 0;
        while col < width
            invariant
                col <= width,
                width > 0,
                height > 0,
                self@.wf(),
                self@.width == width,
                self@.height() == height,
                before.wf(),
                before.width == width,
                before.height() == height,
                forall|r: int, c: int|
                    before.has(r, c) ==> #[trigger] self@.rows[r][c] == (if (r == 0 || r == height
                        - 1) && c < col {
                        value
                    } else {
                        before.rows[r][c]
                    }),
            decreases width - col,
        {
            self.put(0, col, value);
            self.put(height - 1, col, value);
            col += 1;
        }
        let mut row: usize = 0;
        while row < height
            invariant
                row <= height,
                width > 0,
                height > 0,
                self@.wf(),
                self@.width == width,
                self@.height() == height,
                before.wf(),
                before.width == width,
                before.height() == height,
                forall|r: int, c: int|
                    before.has(r, c) ==> #[trigger] self@.rows[r][c] == (if r == 0 || r == height
                        - 1 || ((c == 0 || c == width - 1) && r < row) {
                        value
                    } else {
                        before.rows[r][c]
                    }),
            decreases height - row,
        {
            self.put(row, 0, value);
            self.put(row, width - 1, value);
            row += 1;
        }
        proof {
            self@.lemma_equal_by_cells(before.with_border(value));
        }
    }
}

impl<T: Copy> Matrix<T> {
    /// The matrix of the given shape whose cell `(r, c)` is the cell of `self`
    /// that `pick` names for `(r, c)`. All the transforms that move cells
    /// without changing them are built on it.
    fn gather(&self, width: usize, height: usize, pick: Pick, Ghost(goal): Ghost<Grid<T>>) -> (made:
        Self)
        requires
            width * height <= usize::MAX,
            goal.wf(),
            goal.width == width,
            goal.height() == height,
            pick matches Pick::Nearest { width: w, height: h } ==> w == width && h == height,
            forall|r: int, c: int|
                0 <= r < height && 0 <= c < width ==> {
                    let (sr, sc) = #[trigger] pick.source(self@, r, c);
                    self@.has(sr, sc) && goal.rows[r][c] == self@.rows[sr][sc]
                },
        ensures
            made@ == goal,
            made@.wf(),
    {
        let mut datum: Vec<T> = Vec::new();
        let mut row: usize = 0;
        proof {
            lemma_flat_next_row(0, width as int);
        }
        while row < height
            invariant
                row <= height,
                width * height <= usize::MAX,
                goal.wf(),
                goal.width == width,
                goal.height() == height,
                pick matches Pick::Nearest { width: w, height: h } ==> w == width && h == height,
                datum@.len() == flat(row as int, 0, width as int),
                begins(datum@, goal),
                forall|r: int, c: int|
                    0 <= r < height && 0 <= c < width ==> {
                        let (sr, sc) = #[trigger] pick.source(self@, r, c);
                        self@.has(sr, sc) && goal.rows[r][c] == self@.rows[sr][sc]
                    },
            decreases height - row,
        {
            let mut col: usize = 0;
            while col < width
                invariant
                    row < height,
                    col <= width,
                    width * height <= usize::MAX,
                    goal.wf(),
                    goal.width == width,
                    goal.height() == height,
                    pick matches Pick::Nearest { width: w, height: h } ==> w == width && h
                        == height,
                    datum@.len() == flat(row as int, col as int, width as int),
                    begins(datum@, goal),
                    forall|r: int, c: int|
                        0 <= r < height && 0 <= c < width ==> {
                            let (sr, sc) = #[trigger] pick.source(self@, r, c);
                            self@.has(sr, sc) && goal.rows[r][c] == self@.rows[sr][sc]
                        },
                decreases width - col,
            {
                let (sr, sc) = pick.locate::<T>(self.width, self.height, row, col, Ghost(self@));
                let value = *self.at(sr, sc);
                proof {
                    lemma_begins_push(datum@, goal, row as int, col as int, value);
                }
                datum.push(value);
                col += 1;
            }
            proof {
                lemma_flat_next_row(row as int, width as int);
            }
            row += 1;
        }
        proof {
            assert(flat(height as int, 0, width as int) == width * height) by {
                lemma_area_swap(width as int, height as int);
            }
        }
        let made = Matrix { width, height, datum };
        proof {
            lemma_begins_all(made, goal);
        }
        made
    }
}

impl<T: Copy> Matrix<T> {
    /// Cuts every row down to its first `new_width` cells.
    pub fn trim_width(&mut self, new_width: usize)
        requires
            new_width <= old(self)@.width,
        ensures
            final(self)@ == old(self)@.trimmed(new_width as nat),
            final(self)@.wf(),
    {
        let ghost goal = self@.trimmed(new_width as nat);
        proof {
            use_type_invariant(&*self);
            lemma_area_inside(
                new_width as int,
                self.height as int,
                self.width as int,
                self.height as int,
            );
            assert forall|r: int| 0 <= r < goal.rows.len() implies (#[trigger] goal.rows[r]).len()
                == goal.width by {
                assert(self@.rows[r].len() == self@.width);
            }
        }
        let made = self.gather(new_width, self.height, Pick::Window { x: 0, y: 0 }, Ghost(goal));
        *self = made;
    }

    /// Keeps the first `new_height` rows.
    pub fn trim_height(&mut self, new_height: usize)
        requires
            new_height <= old(self)@.height(),
        ensures
            final(self)@ == old(self)@.truncated(new_height as nat),
            final(self)@.wf(),
    {
        let ghost goal = self@.truncated(new_height as nat);
        proof {
            use_type_invariant(&*self);
            lemma_area_inside(
                self.width as int,
                new_height as int,
                self.width as int,
                self.height as int,
            );
            assert forall|r: int| 0 <= r < goal.rows.len() implies (#[trigger] goal.rows[r]).len()
                == goal.width by {
                assert(self@.rows[r].len() == self@.width);
            }
        }
        let made = self.gather(self.width, new_height, Pick::Window { x: 0, y: 0 }, Ghost(goal));
        *self = made;
    }

    /// The `width` by `height` rectangle of cells whose top left corner is at
    /// row `y`, column `x`.
    pub fn window(&self, x: usize, y: usize, width: usize, height: usize) -> (made: Self)
        requires
            self@.holds_window(x as int, y as int, width as nat, height as nat),
        ensures
            made@ == self@.window(x as int, y as int, width as nat, height as nat),
            made@.wf(),
    {
        let ghost goal = self@.window(x as int, y as int, width as nat, height as nat);
        proof {
            use_type_invariant(self);
            lemma_area_inside(
                width as int,
                height as int,
                self.width as int,
                self.height as int,
            );
        }
        self.gather(width, height, Pick::Window { x, y }, Ghost(goal))
    }

    /// Swaps rows and columns.
    pub fn transpose(&mut self)
        ensures
            final(self)@ == old(self)@.transposed(),
            final(self)@.wf(),
    {
        let ghost goal = self@.transposed();
        proof {
            use_type_invariant(&*self);
            lemma_area_swap(self.width as int, self.height as int);
        }
        let made = self.gather(self.height, self.width, Pick::Transpose, Ghost(goal));
        *self = made;
    }

    /// Reverses the order of the rows.
    pub fn mirror_x(&mut self)
        ensures
            final(self)@ == old(self)@.mirrored_x(),
            final(self)@.wf(),
    {
        let ghost goal = self@.mirrored_x();
        proof {
            use_type_invariant(&*self);
        }
        let made = self.gather(self.width, self.height, Pick::MirrorX, Ghost(goal));
        *self = made;
    }

    /// Reverses the order of the columns.
    pub fn mirror_y(&mut self)
        ensures
            final(self)@ == old(self)@.mirrored_y(),
            final(self)@.wf(),
    {
        let ghost goal = self@.mirrored_y();
        proof {
            use_type_invariant(&*self);
        }
        let made = self.gather(self.width, self.height, Pick::MirrorY, Ghost(goal));
        *self = made;
    }

    /// Turns the matrix a quarter turn counterclockwise. A matrix without
    /// cells is left as it is.
    pub fn rotate_left(&mut self)
        ensures
            final(self)@ == old(self)@.rotated_left(),
            final(self)@.wf(),
    {
        if self.width == 0 || self.height == 0 {
            return ;
        }
        let ghost goal = self@.rotated_left();
        proof {
            use_type_invariant(&*self);
            lemma_area_swap(self.width as int, self.height as int);
        }
        let made = self.gather(self.height, self.width, Pick::TurnLeft, Ghost(goal));
        *self = made;
    }

    /// Turns the matrix a quarter turn clockwise. A matrix without cells is
    /// left as it is.
    pub fn rotate_right(&mut self)
        ensures
            final(self)@ == old(self)@.rotated_right(),
            final(self)@.wf(),
    {
        if self.width == 0 || self.height == 0 {
            return ;
        }
        let ghost goal = self@.rotated_right();
        proof {
            use_type_invariant(&*self);
            lemma_area_swap(self.width as int, self.height as int);
        }
        let made = self.gather(self.height, self.width, Pick::TurnRight, Ghost(goal));
        *self = made;
    }

    /// The matrix of the given shape that takes each cell from the nearest
    /// cell of `self` above and to the left of where it falls.
    pub fn resample(&self, width: usize, height: usize) -> (made: Self)
        requires
            width > 0 && height > 0 ==> self@.width > 0 && self@.height() > 0,
            width * height <= usize::MAX,
        ensures
            made@ == self@.resampled(width as nat, height as nat),
            made@.wf(),
    {
        let ghost goal = self@.resampled(width as nat, height as nat);
        proof {
            assert forall|r: int, c: int| 0 <= r < height && 0 <= c < width implies {
                let (sr, sc) = #[trigger] (Pick::Nearest { width, height }).source(self@, r, c);
                self@.has(sr, sc) && goal.rows[r][c] == self@.rows[sr][sc]
            } by {
                lemma_scale_index(r, self.height as int, height as int);
                lemma_scale_index(c, self.width as int, width as int);
            }
        }
        self.gather(width, height, Pick::Nearest { width, height }, Ghost(goal))
    }

    /// Takes cell `seam[r]` out of row `r`, for every row, and closes the gap
    /// from the right.
    pub fn remove_seam(&mut self, seam: &Vec<usize>)
        requires
            old(self)@.holds_seam(seam@.map_values(|c: usize| c as int)),
            old(self)@.width > 0,
        ensures
            final(self)@ == old(self)@.without_seam(seam@.map_values(|c: usize| c as int)),
            final(self)@.wf(),
    {
        let ghost path = seam@.map_values(|c: usize| c as int);
        let ghost goal = self@.without_seam(path);
        let width: usize = self.width - 1;
        let height: usize = self.height;
        proof {
            use_type_invariant(&*self);
            self@.lemma_without_seam(path);
            lemma_area_inside(width as int, height as int, self.width as int, height as int);
            lemma_flat_next_row(0, width as int);
        }
        let mut datum: Vec<T> = Vec::new();
        let mut row: usize = 0;
        while row < height
            invariant
                row <= height,
                width + 1 == self.width,
                height == self.height,
                self@.wf(),
                self@.holds_seam(path),
                path == seam@.map_values(|c: usize| c as int),
                goal == self@.without_seam(path),
                goal.wf(),
                goal.width == width,
                goal.height() == height,
                datum@.len() == flat(row as int, 0, width as int),
                begins(datum@, goal),
            decreases height - row,
        {
            let gap: usize = seam[row];
            assert(gap == path[row as int]);
            let mut col: usize = 0;
            while col < width
                invariant
                    row < height,
                    col <= width,
                    width + 1 == self.width,
                    height == self.height,
                    self@.wf(),
                    self@.holds_seam(path),
                    gap == path[row as int],
                    goal == self@.without_seam(path),
                    goal.wf(),
                    goal.width == width,
                    goal.height() == height,
                    datum@.len() == flat(row as int, col as int, width as int),
                    begins(datum@, goal),
                decreases width - col,
            {
                let value = if col < gap {
                    *self.at(row, col)
                } else {
                    *self.at(row, col + 1)
                };
                proof {
                    self@.lemma_without_seam(path);
                    assert(value == goal.rows[row as int][col as int]);
                    lemma_begins_push(datum@, goal, row as int, col as int, value);
                }
                datum.push(value);
                col += 1;
            }
            proof {
                lemma_flat_next_row(row as int, width as int);
            }
            row += 1;
        }
        proof {
            assert(flat(height as int, 0, width as int) == width * height) by {
                lemma_area_swap(width as int, height as int);
            }
        }
        let made = Matrix { width, height, datum };
        proof {
            lemma_begins_all(made, goal);
        }
        *self = made;
    }
}

impl<T: Ranked> Matrix<T> {
    /// The least cell: of several that are least, the first in row-major
    /// order. Nothing where the matrix has no cells.
    pub fn min(&self) -> (least: Option<T>)
        ensures
            least is None <==> self@.width == 0 || self@.height() == 0,
            least matches Some(v) ==> exists|r: int, c: int|
                self@.first_least_at(r, c) && v == #[trigger] self@.rows[r][c],
    {
        if self.width == 0 || self.height == 0 {
            return None;
        }
        let mut best: T = *self.at(0, 0);
        let ghost mut br: int = 0;
        let ghost mut bc: int = 0;
        let mut row: usize = 0;
        while row < self.height
            invariant
                row <= self.height,
                self.width > 0,
                self@.wf(),
                self@.width == self.width,
                self@.height() == self.height,
                self@.has(br, bc),
                best == self@.rows[br][bc],
                row > 0 ==> br < row,
                row == 0 ==> br == 0 && bc == 0,
                forall|i: int, j: int|
                    self@.has(i, j) && i < row ==> best.rank() <= (
                    #[trigger] self@.rows[i][j]).rank(),
                forall|i: int, j: int|
                    self@.has(i, j) && (i < br || (i == br && j < bc)) ==> best.rank() < (
                    #[trigger] self@.rows[i][j]).rank(),
            decreases self.height - row,
        {
            let mut col: usize = 0;
            while col < self.width
                invariant
                    row < self.height,
                    col <= self.width,
                    self@.wf(),
                    self@.width == self.width,
                    self@.height() == self.height,
                    self@.has(br, bc),
                    best == self@.rows[br][bc],
                    br < row || (br == row && bc < col) || (row == 0 && col == 0 && br == 0 && bc
                        == 0),
                    forall|i: int, j: int|
                        self@.has(i, j) && (i < row || (i == row && j < col)) ==> best.rank() <= (
                        #[trigger] self@.rows[i][j]).rank(),
                    forall|i: int, j: int|
                        self@.has(i, j) && (i < br || (i == br && j < bc)) ==> best.rank() < (
                        #[trigger] self@.rows[i][j]).rank(),
                decreases self.width - col,
            {
                let value = *self.at(row, col);
                if value.below(best) {
                    best = value;
                    proof {
                        br = row as int;
                        bc = col as int;
                    }
                }
                col += 1;
            }
            row += 1;
        }
        assert(self@.first_least_at(br, bc));
        Some(best)
    }

    /// The greatest cell: of several that are greatest, the last in
    /// row-major order. Nothing where the matrix has no cells.
    pub fn max(&self) -> (greatest: Option<T>)
        ensures
            greatest is None <==> self@.width == 0 || self@.height() == 0,
            greatest matches Some(v) ==> exists|r: int, c: int|
                self@.last_greatest_at(r, c) && v == #[trigger] self@.rows[r][c],
    {
        if self.width == 0 || self.height == 0 {
            return None;
        }
        let mut best: T = *self.at(0, 0);
        let ghost mut br: int = 0;
        let ghost mut bc: int = 0;
        let mut row: usize = 0;
        while row < self.height
            invariant
                row <= self.height,
                self.width > 0,
                self@.wf(),
                self@.width == self.width,
                self@.height() == self.height,
                self@.has(br, bc),
                best == self@.rows[br][bc],
                row > 0 ==> br < row,
                row == 0 ==> br == 0 && bc == 0,
                forall|i: int, j: int|
                    self@.has(i, j) && i < row ==> (#[trigger] self@.rows[i][j]).rank()
                        <= best.rank(),
                forall|i: int, j: int|
                    self@.has(i, j) && i < row && (br < i || (i == br && bc < j)) ==> (
                    #[trigger] self@.rows[i][j]).rank() < best.rank(),
            decreases self.height - row,
        {
            let mut col: usize = 0;
            while col < self.width
                invariant
                    row < self.height,
                    col <= self.width,
                    self@.wf(),
                    self@.width == self.width,
                    self@.height() == self.height,
                    self@.has(br, bc),
                    best == self@.rows[br][bc],
                    br < row || (br == row && bc < col) || (row == 0 && col == 0 && br == 0 && bc
                        == 0),
                    forall|i: int, j: int|
                        self@.has(i, j) && (i < row || (i == row && j < col)) ==> (
                        #[trigger] self@.rows[i][j]).rank() <= best.rank(),
                    forall|i: int, j: int|
                        self@.has(i, j) && (i < row || (i == row && j < col)) && (br < i || (i
                            == br && bc < j)) ==> (#[trigger] self@.rows[i][j]).rank()
                            < best.rank(),
                decreases self.width - col,
            {
                let value = *self.at(row, col);
                if !value.below(best) {
                    best = value;
                    proof {
                        br = row as int;
                        bc = col as int;
                    }
                }
                col += 1;
            }
            row += 1;
        }
        assert(self@.last_greatest_at(br, bc));
        Some(best)
    }

    /// The column at which the cells `column_start..column_end` of `row` are
    /// least, the leftmost of several, and the cell there. Nothing where the
    /// row does not exist or the range is empty or runs past the last column.
    pub fn min_in_row_range(&self, row: usize, column_start: usize, column_end: usize) -> (least:
        Option<(usize, T)>)
        ensures
            least is Some <==> row < self@.height() && column_start < column_end && column_end
                <= self@.width,
            least matches Some((c, v)) ==> self@.leftmost_least_at(
                row as int,
                column_start as int,
                column_end as int,
                c as int,
            ) && v == self@.rows[row as int][c as int],
    {
        if row >= self.height || column_start >= column_end || column_end > self.width {
            return None;
        }
        let mut min_val: T = *self.at(row, column_start);
        let mut min_index: usize = column_start;
        let ghost ranks = self@.ranks(row as int);
        let mut col: usize = column_start + 1;
        while col < column_end
            invariant
                row < self.height,
                column_start < col <= column_end <= self.width,
                self@.wf(),
                self@.width == self.width,
                self@.height() == self.height,
                ranks == self@.ranks(row as int),
                column_start <= min_index < col,
                min_val == self@.rows[row as int][min_index as int],
                crate::order::is_leftmost_min(
                    ranks,
                    column_start as int,
                    col as int,
                    min_index as int,
                ),
            decreases column_end - col,
        {
            let val = *self.at(row, col);
            if val.below(min_val) {
                min_val = val;
                min_index = col;
            }
            col += 1;
        }
        Some((min_index, min_val))
    }

    /// The column at which `row` is least, the leftmost of several, and the
    /// cell there. Nothing where the row does not exist or has no cells.
    pub fn min_in_row(&self, row: usize) -> (least: Option<(usize, T)>)
        ensures
            least is Some <==> row < self@.height() && 0 < self@.width,
            least matches Some((c, v)) ==> self@.leftmost_least_at(
                row as int,
                0,
                self@.width as int,
                c as int,
            ) && v == self@.rows[row as int][c as int],
    {
        self.min_in_row_range(row, 0, self.width)
    }
}

impl<T: Copy> Clone for Matrix<T> {
    /// A matrix of the same shape with the same cells.
    fn clone(&self) -> (copy: Self)
        ensures
            copy@ == self@,
    {
        proof {
            use_type_invariant(self);
        }
        let n: usize = self.datum.len();
        let mut datum: Vec<T> = Vec::new();
        let mut i: usize = 0;
        while i < n
            invariant
                i <= n == self.datum@.len(),
                datum@ == self.datum@.take(i as int),
            decreases n - i,
        {
            datum.push(self.datum[i]);
            i += 1;
            proof {
                assert(datum@ =~= self.datum@.take(i as int));
            }
        }
        proof {
            assert(datum@ =~= self.datum@);
        }
        Matrix { width: self.width, height: self.height, datum }
    }
}

} // verus!
