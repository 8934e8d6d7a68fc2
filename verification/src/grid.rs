//! Fixed-size two-dimensional fields, stored row by row.

use vstd::prelude::*;

verus! {

/// The mathematical value of a [`Grid`]: `width * height` cells, row by row.
pub struct GridView<T> {
    pub width: nat,
    pub height: nat,
    pub cells: Seq<T>,
}

impl<T> GridView<T> {
    /// There is one cell for each place.
    pub open spec fn wf(self) -> bool {
        self.cells.len() == self.width * self.height
    }

    /// `(x, y)` is a place of the grid.
    pub open spec fn contains(self, x: int, y: int) -> bool {
        0 <= x < self.width && 0 <= y < self.height
    }

    /// The cell in column `x` of row `y`.
    pub open spec fn at(self, x: int, y: int) -> T {
        self.cells[y * self.width + x]
    }
}

/// The cell of `(x, y)` lies inside a grid of that size.
pub proof fn lemma_cell_index(width: int, height: int, x: int, y: int)
    requires
        0 <= x < width,
        0 <= y < height,
    ensures
        0 <= y * width + x < width * height,
        y * width + width <= width * height,
        (y * width + x) / width == y,
        (y * width + x) % width == x,
{
    assert(0 <= y * width && (y + 1) * width <= height * width && (y + 1) * width == y * width
        + width && height * width == width * height) by (nonlinear_arith)
        requires
            0 <= y < height,
            0 < width,
    ;
    vstd::arithmetic::div_mod::lemma_fundamental_div_mod_converse(y * width + x, width, y, x);
    assert(width * y == y * width) by (nonlinear_arith);
}

/// A field of `width * height` cells, stored row by row.
#[derive(Debug)]
pub struct Grid<T> {
    width: usize,
    height: usize,
    cells: Vec<T>,
}

impl<T> View for Grid<T> {
    type V = GridView<T>;

    closed spec fn view(&self) -> GridView<T> {
        GridView { width: self.width as nat, height: self.height as nat, cells: self.cells@ }
    }
}

impl<T> Grid<T> {
    #[verifier::type_invariant]
    spec fn well_formed(self) -> bool {
        self.cells@.len() == self.width * self.height
    }

    /// Makes a grid of the cells given row by row, if there are
    /// `width * height` of them.
    pub fn new(width: usize, height: usize, cells: Vec<T>) -> (r: Option<Grid<T>>)
        ensures
            cells@.len() == width * height <==> r is Some,
            r matches Some(g) ==> g@ == (GridView { width: width as nat, height: height as nat, cells: cells@ }),
    {
        let len: usize = cells.len();
        match width.checked_mul(height) {
            Some(n) => {
                if len == n {
                    Some(Grid { width, height, cells })
                } else {
                    None
                }
            },
            None => None,
        }
    }

    /// Makes a grid of cells that are known to be `width * height` many.
    pub fn from_cells(width: usize, height: usize, cells: Vec<T>) -> (r: Grid<T>)
        requires
            cells@.len() == width * height,
        ensures
            r@ == (GridView { width: width as nat, height: height as nat, cells: cells@ }),
    {
        Grid { width, height, cells }
    }

    /// The number of columns.
    pub fn width(&self) -> (r: usize)
        ensures
            r == self@.width,
            self@.wf(),
    {
        proof {
            use_type_invariant(self);
        }
        self.width
    }

    /// The number of rows.
    pub fn height(&self) -> (r: usize)
        ensures
            r == self@.height,
            self@.wf(),
    {
        proof {
            use_type_invariant(self);
        }
        self.height
    }

    /// All cells, row by row.
    pub fn cells(&self) -> (r: &Vec<T>)
        ensures
            r@ == self@.cells,
            self@.wf(),
    {
        proof {
            use_type_invariant(self);
        }
        &self.cells
    }

    /// The cell in column `x` of row `y`, which must be a place of the grid.
    pub fn at(&self, x: usize, y: usize) -> (r: &T)
        requires
            self@.contains(x as int, y as int),
        ensures
            *r == self@.at(x as int, y as int),
    {
        let len: usize = self.cells.len();
        proof {
            use_type_invariant(self);
            lemma_cell_index(self.width as int, self.height as int, x as int, y as int);
            assert(0 <= y * self.width <= y * self.width + x < self.cells@.len()) by (nonlinear_arith)
                requires
                    0 <= y * self.width + x < self.width * self.height,
                    self.cells@.len() == self.width * self.height,
                    0 <= x,
            ;
        }
        &self.cells[y * self.width + x]
    }

    /// The cell in column `x` of row `y`, if the grid has such a place.
    pub fn get(&self, x: usize, y: usize) -> (r: Option<&T>)
        ensures
            self@.contains(x as int, y as int) <==> r is Some,
            r matches Some(c) ==> *c == self@.at(x as int, y as int),
    {
        if x < self.width && y < self.height {
            Some(self.at(x, y))
        } else {
            None
        }
    }
}

} // verus!
