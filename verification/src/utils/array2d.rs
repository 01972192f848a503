//! A fixed-size two-dimensional array of optional values.

use vstd::prelude::*;

verus! {

/// A `W` x `H` grid of cells, each empty or holding a `T`.  Cell `(x, y)`
/// is column `x` of row `y`.
pub struct Array2D<T, const W: usize, const H: usize> {
    data: Vec<Option<T>>,
}

/// The grid's cells fit together: row-major storage of `H` rows of `W`
/// cells.
impl<T: Copy, const W: usize, const H: usize> Array2D<T, W, H> {
    /// The shape invariant: exactly `W * H` cells.
    pub closed spec fn wf(&self) -> bool {
        self.data@.len() == (W as int) * (H as int)
    }

    /// The cell at column `x` of row `y`.
    pub closed spec fn spec_get(&self, x: int, y: int) -> Option<T> {
        self.data@[y * (W as int) + x]
    }

    /// Row-major cell indices stay within the grid and name cells
    /// uniquely.
    proof fn lemma_cell_index(x: int, y: int, a: int, b: int)
        requires
            0 <= x < W,
            0 <= y < H,
            0 <= a < W,
            0 <= b < H,
        ensures
            0 <= y * (W as int) + x < (W as int) * (H as int),
            y * (W as int) + x == b * (W as int) + a ==> x == a && y == b,
    {
        assert(0 <= y * (W as int) + x < (W as int) * (H as int)) by (nonlinear_arith)
            requires
                0 <= x < W,
                0 <= y < H,
        ;
        assert(y * (W as int) + x == b * (W as int) + a ==> x == a && y == b)
            by (nonlinear_arith)
            requires
                0 <= x < W,
                0 <= y < H,
                0 <= a < W,
                0 <= b < H,
        ;
    }

    /// An empty grid.
    pub fn new() -> (r: Self)
        ensures
            r.wf(),
            forall|a: int, b: int| 0 <= a < W && 0 <= b < H ==> #[trigger] r.spec_get(a, b) is None,
    {
        let mut data: Vec<Option<T>> = Vec::new();
        let mut y: usize = 0;
        while y < H
            invariant
                y <= H,
                data@.len() == y * (W as int),
                forall|k: int| 0 <= k < data@.len() ==> #[trigger] data@[k] is None,
            decreases H - y,
        {
            let mut x: usize = 0;
            while x < W
                invariant
                    x <= W,
                    y < H,
                    data@.len() == y * (W as int) + x,
                    forall|k: int| 0 <= k < data@.len() ==> #[trigger] data@[k] is None,
                decreases W - x,
            {
                data.push(Option::None);
                x = x + 1;
            }
            y = y + 1;
            proof {
                assert((y - 1) * (W as int) + (W as int) == y * (W as int)) by (nonlinear_arith);
            }
        }
        let r = Array2D { data };
        proof {
            assert forall|a: int, b: int|
                0 <= a < W && 0 <= b < H implies #[trigger] r.spec_get(a, b) is None by {
                Self::lemma_cell_index(a, b, a, b);
            }
        }
        r
    }

    /// Put `value` in cell `(x, y)`.
    pub fn set(&mut self, x: usize, y: usize, value: T)
        requires
            old(self).wf(),
            x < W,
            y < H,
        ensures
            final(self).wf(),
            final(self).spec_get(x as int, y as int) == Option::Some(value),
            forall|a: int, b: int|
                0 <= a < W && 0 <= b < H && !(a == x && b == y) ==> #[trigger] final(self).spec_get(a, b) == old(self).spec_get(a, b),
    {
        proof {
            Self::lemma_cell_index(x as int, y as int, x as int, y as int);
            assert(y * W + x < W * H) by (nonlinear_arith)
                requires
                    x < W,
                    y < H,
            ;
        }
        let n = self.data.len();
        self.data[y * W + x] = Option::Some(value);
        proof {
            assert forall|a: int, b: int|
                0 <= a < W && 0 <= b < H && !(a == x && b == y) implies #[trigger] self.spec_get(
                a,
                b,
            ) == old(self).spec_get(a, b) by {
                Self::lemma_cell_index(a, b, x as int, y as int);
            }
        }
    }

    /// Empty cell `(x, y)`.
    pub fn delete(&mut self, x: usize, y: usize)
        requires
            old(self).wf(),
            x < W,
            y < H,
        ensures
            final(self).wf(),
            final(self).spec_get(x as int, y as int) is None,
            forall|a: int, b: int|
                0 <= a < W && 0 <= b < H && !(a == x && b == y) ==> #[trigger] final(self).spec_get(a, b) == old(self).spec_get(a, b),
    {
        proof {
            Self::lemma_cell_index(x as int, y as int, x as int, y as int);
            assert(y * W + x < W * H) by (nonlinear_arith)
                requires
                    x < W,
                    y < H,
            ;
        }
        let n = self.data.len();
        self.data[y * W + x] = Option::None;
        proof {
            assert forall|a: int, b: int|
                0 <= a < W && 0 <= b < H && !(a == x && b == y) implies #[trigger] self.spec_get(
                a,
                b,
            ) == old(self).spec_get(a, b) by {
                Self::lemma_cell_index(a, b, x as int, y as int);
            }
        }
    }

    /// The content of cell `(x, y)`.
    pub fn get(&self, x: usize, y: usize) -> (r: Option<T>)
        requires
            self.wf(),
            x < W,
            y < H,
        ensures
            r == self.spec_get(x as int, y as int),
    {
        proof {
            Self::lemma_cell_index(x as int, y as int, x as int, y as int);
            assert(y * W + x < W * H) by (nonlinear_arith)
                requires
                    x < W,
                    y < H,
            ;
        }
        let n = self.data.len();
        self.data[y * W + x]
    }

    /// Whether cell `(x, y)` holds a value.
    pub fn has(&self, x: usize, y: usize) -> (r: bool)
        requires
            self.wf(),
            x < W,
            y < H,
        ensures
            r == (self.spec_get(x as int, y as int) is Some),
    {
        self.get(x, y).is_some()
    }

    /// Put `value` in every cell of column `x`.
    pub fn fill_column(&mut self, x: usize, value: T)
        requires
            old(self).wf(),
            x < W,
        ensures
            final(self).wf(),
            forall|b: int|
                0 <= b < H ==> #[trigger] final(self).spec_get(x as int, b) == Option::Some(
                    value,
                ),
            forall|a: int, b: int|
                0 <= a < W && 0 <= b < H && a != x ==> #[trigger] final(self).spec_get(a, b)
                    == old(self).spec_get(a, b),
    {
        let mut y: usize = 0;
        while y < H
            invariant
                self.wf(),
                x < W,
                y <= H,
                forall|b: int|
                    0 <= b < y ==> #[trigger] self.spec_get(x as int, b) == Option::Some(value),
                forall|a: int, b: int|
                    0 <= a < W && 0 <= b < H && a != x ==> #[trigger] self.spec_get(a, b) == old(self).spec_get(a, b),
            decreases H - y,
        {
            self.set(x, y, value);
            y = y + 1;
        }
    }

    /// Put `value` in every cell of row `y`.
    pub fn fill_row(&mut self, y: usize, value: T)
        requires
            old(self).wf(),
            y < H,
        ensures
            final(self).wf(),
            forall|a: int|
                0 <= a < W ==> #[trigger] final(self).spec_get(a, y as int) == Option::Some(
                    value,
                ),
            forall|a: int, b: int|
                0 <= a < W && 0 <= b < H && b != y ==> #[trigger] final(self).spec_get(a, b)
                    == old(self).spec_get(a, b),
    {
        let mut x: usize = 0;
        while x < W
            invariant
                self.wf(),
                y < H,
                x <= W,
                forall|a: int|
                    0 <= a < x ==> #[trigger] self.spec_get(a, y as int) == Option::Some(value),
                forall|a: int, b: int|
                    0 <= a < W && 0 <= b < H && b != y ==> #[trigger] self.spec_get(a, b) == old(self).spec_get(a, b),
            decreases W - x,
        {
            self.set(x, y, value);
            x = x + 1;
        }
    }

}

} // verus!
