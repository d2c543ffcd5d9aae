//! Dense, row-major 2D container.
//!
//! A `Grid<T>` of width `w` and height `h` stores `w * h` cells in one
//! buffer; the cell at `(x, y)` lives at linear index `x * h + y` (x is the
//! outer, slow-varying axis).  The shape is fixed at construction.  Checked
//! access takes signed coordinates, so a caller can express "one below the
//! first row or column" without wraparound; unchecked access demands an
//! in-range coordinate from the caller and is proved safe at each call site.

use vstd::arithmetic::div_mod::lemma_fundamental_div_mod_converse;
use vstd::prelude::*;

verus! {

/// Mathematical model of a grid: dimensions plus the flat cell sequence.
#[verifier::ext_equal]
pub ghost struct GridModel<T> {
    pub w: int,
    pub h: int,
    pub cells: Seq<T>,
}

/// The model is well formed: the buffer holds exactly `w * h` cells.
pub open spec fn grid_wf<T>(g: GridModel<T>) -> bool {
    g.w >= 0 && g.h >= 0 && g.cells.len() == g.w * g.h
}

/// `(x, y)` addresses a cell of `g`.
pub open spec fn grid_in_range<T>(g: GridModel<T>, x: int, y: int) -> bool {
    0 <= x < g.w && 0 <= y < g.h
}

/// The cell of `g` at `(x, y)`.
pub open spec fn grid_at<T>(g: GridModel<T>, x: int, y: int) -> T {
    g.cells[x * g.h + y]
}

/// The model whose cell at `(x, y)` is `f(x, y)`.
pub open spec fn grid_from_fn<T>(w: int, h: int, f: spec_fn(int, int) -> T) -> GridModel<T> {
    GridModel { w, h, cells: Seq::new((w * h) as nat, |i: int| f(i / h, i % h)) }
}

/// A row-major index stays below the buffer length.
pub proof fn lemma_row_major_index_bound(w: int, h: int, x: int, y: int)
    requires
        0 <= x < w,
        0 <= y < h,
    ensures
        0 <= x * h + y < w * h,
{
    assert(0 <= x * h + y < w * h) by (nonlinear_arith)
        requires
            0 <= x < w,
            0 <= y < h,
    ;
}

/// Reading `grid_from_fn(w, h, f)` at `(x, y)` gives `f(x, y)`.
pub proof fn lemma_grid_from_fn_at<T>(w: int, h: int, f: spec_fn(int, int) -> T, x: int, y: int)
    requires
        0 <= x < w,
        0 <= y < h,
    ensures
        grid_wf(grid_from_fn(w, h, f)),
        grid_at(grid_from_fn(w, h, f), x, y) == f(x, y),
{
    lemma_row_major_index_bound(w, h, x, y);
    lemma_fundamental_div_mod_converse(x * h + y, h, x, y);
}

/// Two well-formed models of the same shape whose cells agree at every
/// coordinate are equal.
pub proof fn lemma_grid_pointwise_eq<T>(a: GridModel<T>, b: GridModel<T>)
    requires
        grid_wf(a),
        grid_wf(b),
        a.w == b.w,
        a.h == b.h,
        forall|x: int, y: int|
            grid_in_range(a, x, y) ==> grid_at(a, x, y) == grid_at(b, x, y),
    ensures
        a == b,
{
    assert forall|i: int| 0 <= i < a.cells.len() implies a.cells[i] == b.cells[i] by {
        if a.h > 0 {
            let x = i / a.h;
            let y = i % a.h;
            vstd::arithmetic::div_mod::lemma_fundamental_div_mod(i, a.h);
            vstd::arithmetic::div_mod::lemma_mod_pos_bound(i, a.h);
            assert(x < a.w) by (nonlinear_arith)
                requires
                    i < a.w * a.h,
                    a.h > 0,
                    i == x * a.h + y,
                    0 <= y < a.h,
                    0 <= i,
            ;
            assert(x >= 0) by (nonlinear_arith)
                requires
                    0 <= i,
                    a.h > 0,
                    i == x * a.h + y,
                    y < a.h,
            ;
            assert(grid_at(a, x, y) == grid_at(b, x, y));
        } else {
            assert(a.cells.len() == 0) by (nonlinear_arith)
                requires
                    a.cells.len() == a.w * a.h,
                    a.h == 0,
                    a.w >= 0,
            ;
        }
    }
    assert(a.cells =~= b.cells);
    assert(a =~= b);
}

/// Dense 2D buffer of fixed shape.
pub struct Grid<T> {
    data: Vec<T>,
    width: usize,
    height: usize,
}

impl<T> View for Grid<T> {
    type V = GridModel<T>;

    closed spec fn view(&self) -> GridModel<T> {
        GridModel { w: self.width as int, h: self.height as int, cells: self.data@ }
    }
}

impl<T> Grid<T> {
    /// Wrap an already-built row-major buffer; the buffer length must match
    /// the requested shape exactly.
    pub fn from_values(values: Vec<T>, dimensions: (usize, usize)) -> (r: Grid<T>)
        requires
            values@.len() == dimensions.0 * dimensions.1,
        ensures
            grid_wf(r@),
            r@.w == dimensions.0,
            r@.h == dimensions.1,
            r@.cells == values@,
    {
        Grid { data: values, width: dimensions.0, height: dimensions.1 }
    }

    /// The grid's shape, as `(w, h)`.
    pub fn dimensions(&self) -> (r: (usize, usize))
        ensures
            r.0 == self@.w,
            r.1 == self@.h,
    {
        (self.width, self.height)
    }

    /// Checked access: absent exactly when the coordinate is out of range.
    pub fn get(&self, coord: (i64, i64)) -> (r: Option<&T>)
        requires
            grid_wf(self@),
        ensures
            match r {
                Some(v) => grid_in_range(self@, coord.0 as int, coord.1 as int) && *v
                    == grid_at(self@, coord.0 as int, coord.1 as int),
                None => !grid_in_range(self@, coord.0 as int, coord.1 as int),
            },
    {
        if coord.0 < 0 || coord.1 < 0 {
            return None;
        }
        if coord.0 as u64 >= self.width as u64 || coord.1 as u64 >= self.height as u64 {
            return None;
        }
        let x = coord.0 as usize;
        let y = coord.1 as usize;
        // Reading the length as a usize bounds the row-major index.
        let n = self.data.len();
        proof {
            lemma_row_major_index_bound(self.width as int, self.height as int, x as int, y as int);
        }
        Some(&self.data[x * self.height + y])
    }

    /// Unchecked access: the caller proves the coordinate in range.
    pub fn get_unchecked(&self, x: usize, y: usize) -> (r: &T)
        requires
            grid_wf(self@),
            grid_in_range(self@, x as int, y as int),
        ensures
            *r == grid_at(self@, x as int, y as int),
    {
        // Reading the length as a usize bounds the row-major index.
        let n = self.data.len();
        proof {
            lemma_row_major_index_bound(self.width as int, self.height as int, x as int, y as int);
        }
        &self.data[x * self.height + y]
    }

    /// Checked mutable access, with the same bounds contract as `get`.
    pub fn get_mut(&mut self, coord: (i64, i64)) -> (r: Option<&mut T>)
        requires
            grid_wf(old(self)@),
        ensures
            !grid_in_range(old(self)@, coord.0 as int, coord.1 as int) ==> r is None
                && *final(self) == *old(self),
            r matches Some(v) ==> grid_in_range(old(self)@, coord.0 as int, coord.1 as int)
                && *v == grid_at(old(self)@, coord.0 as int, coord.1 as int)
                && final(self)@.w == old(self)@.w && final(self)@.h == old(self)@.h
                && final(self)@.cells == old(self)@.cells.update(
                coord.0 as int * old(self)@.h + coord.1 as int,
                *final(v),
            ),
    {
        if coord.0 < 0 || coord.1 < 0 {
            return None;
        }
        if coord.0 as u64 >= self.width as u64 || coord.1 as u64 >= self.height as u64 {
            return None;
        }
        let x = coord.0 as usize;
        let y = coord.1 as usize;
        // Reading the length as a usize bounds the row-major index.
        let n = self.data.len();
        proof {
            lemma_row_major_index_bound(self.width as int, self.height as int, x as int, y as int);
        }
        Some(&mut self.data[x * self.height + y])
    }

    /// Unchecked mutable access: the caller proves the coordinate in range.
    pub fn get_mut_unchecked(&mut self, x: usize, y: usize) -> (r: &mut T)
        requires
            grid_wf(old(self)@),
            grid_in_range(old(self)@, x as int, y as int),
        ensures
            *r == grid_at(old(self)@, x as int, y as int),
            final(self)@.w == old(self)@.w,
            final(self)@.h == old(self)@.h,
            final(self)@.cells == old(self)@.cells.update(
                x as int * old(self)@.h + y as int,
                *final(r),
            ),
    {
        // Reading the length as a usize bounds the row-major index.
        let n = self.data.len();
        proof {
            lemma_row_major_index_bound(self.width as int, self.height as int, x as int, y as int);
        }
        &mut self.data[x * self.height + y]
    }

    /// A copy of the whole buffer, in row-major order.
    pub fn to_values(&self) -> (r: Vec<T>) where T: Copy
        ensures
            r@ == self@.cells,
    {
        let mut out: Vec<T> = Vec::new();
        let mut i: usize = 0;
        while i < self.data.len()
            invariant
                i <= self.data.len(),
                out@ == self.data@.take(i as int),
            decreases self.data.len() - i,
        {
            out.push(self.data[i]);
            i = i + 1;
        }
        proof {
            assert(self.data@.take(self.data@.len() as int) =~= self.data@);
        }
        out
    }
}

impl<T: Copy> Grid<T> {
    /// A grid of the given shape with every cell set to `value`.
    pub fn filled(value: T, dimensions: (usize, usize)) -> (r: Grid<T>)
        requires
            dimensions.0 * dimensions.1 <= usize::MAX,
        ensures
            grid_wf(r@),
            r@.w == dimensions.0,
            r@.h == dimensions.1,
            forall|x: int, y: int|
                grid_in_range(r@, x, y) ==> grid_at(r@, x, y) == value,
    {
        let total: usize = dimensions.0 * dimensions.1;
        let mut data: Vec<T> = Vec::new();
        let mut i: usize = 0;
        while i < total
            invariant
                i <= total,
                data@.len() == i,
                forall|j: int| 0 <= j < i ==> data@[j] == value,
            decreases total - i,
        {
            data.push(value);
            i = i + 1;
        }
        let g = Grid { data, width: dimensions.0, height: dimensions.1 };
        proof {
            assert forall|x: int, y: int| grid_in_range(g@, x, y) implies grid_at(g@, x, y)
                == value by {
                lemma_row_major_index_bound(g@.w, g@.h, x, y);
            }
        }
        g
    }
}

} // verus!
