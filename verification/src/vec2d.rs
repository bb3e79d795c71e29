use vstd::prelude::*;

verus! {

use vstd::arithmetic::mul::lemma_mul_inequality;
use vstd::slice::slice_subrange;
use vstd::std_specs::cmp::PartialEqSpec;

/// Row-major element positions stay inside a `rows * w` buffer.
proof fn lemma_cell_index_in_bounds(rows: int, w: int, r: int, c: int)
    requires
        0 <= r < rows,
        0 <= c < w,
    ensures
        0 <= r * w + c < rows * w,
{
    assert(0 <= r * w + c < rows * w) by (nonlinear_arith)
        requires
            0 <= r < rows,
            0 <= c < w,
    ;
}

/// A buffer of length `rows * w` viewed row-major has exactly `rows` rows.
proof fn lemma_rows_of_multiple(len: int, rows: int, w: int)
    requires
        0 < w,
        0 <= rows,
        len == rows * w,
    ensures
        len / w == rows,
{
    vstd::arithmetic::div_mod::lemma_div_by_multiple(rows, w);
}

/// The flat, row-major buffer that results from inserting `d` as a new row
/// immediately before row `index` of a buffer `s` of width `w`.
pub open spec fn row_inserted<T>(s: Seq<T>, w: int, index: int, d: Seq<T>) -> Seq<T>
    recommends
        0 <= w,
        0 <= index,
        0 <= w * index <= s.len(),
{
    s.subrange(0, w * index) + d + s.subrange(w * index, s.len() as int)
}

/// Inserting a row immediately after the last existing row is the same as
/// appending it at the end of the buffer, which is what pushing a row does.
pub proof fn lemma_insert_row_at_end_is_push<T>(s: Seq<T>, w: int, rows: int, d: Seq<T>)
    requires
        0 <= w,
        0 <= rows,
        s.len() == rows * w,
    ensures
        row_inserted(s, w, rows, d) == s + d,
{
    vstd::arithmetic::mul::lemma_mul_is_commutative(rows, w);
    assert(row_inserted(s, w, rows, d) =~= s + d);
}

/// The flat, row-major buffer of width `w` after each of the first `k` rows
/// has received one new element: row `r`'s element `vals[r]` was inserted at
/// flat position `at + r * (w + 1)`, in increasing row order, each insertion
/// shifting the positions of the rows that follow.
pub open spec fn col_inserted<T>(s: Seq<T>, w: int, at: int, vals: Seq<T>, k: int) -> Seq<T>
    decreases k,
{
    if k <= 0 {
        s
    } else {
        col_inserted(s, w, at, vals, k - 1).insert(at + (k - 1) * (w + 1), vals[k - 1])
    }
}

/// `col_inserted` only reads the first `k` entries of `vals`.
proof fn lemma_col_inserted_vals_prefix<T>(s: Seq<T>, w: int, at: int, v1: Seq<T>, v2: Seq<T>, k: int)
    requires
        forall|i: int| 0 <= i < k ==> v1[i] == v2[i],
    ensures
        col_inserted(s, w, at, v1, k) == col_inserted(s, w, at, v2, k),
    decreases k,
{
    if k > 0 {
        lemma_col_inserted_vals_prefix(s, w, at, v1, v2, k - 1);
    }
}

/// After the first `k` of `rows` rows gained one element at column `at`, the
/// buffer reads as follows: the first `k` rows have width `w + 1` and hold
/// their old elements with `vals[r]` spliced in at column `at`; the remaining
/// elements sit `k` positions later than before, unchanged.
proof fn lemma_col_inserted_props<T>(s: Seq<T>, w: int, at: int, vals: Seq<T>, rows: int, k: int)
    requires
        1 <= w,
        0 <= at <= w,
        s.len() == rows * w,
        0 <= k <= rows,
        k <= vals.len(),
    ensures
        col_inserted(s, w, at, vals, k).len() == s.len() + k,
        forall|r: int, c: int|
            0 <= r < k && 0 <= c <= w ==> #[trigger] col_inserted(s, w, at, vals, k)[r * (w + 1)
                + c] == (if c < at {
                s[r * w + c]
            } else if c == at {
                vals[r]
            } else {
                s[r * w + c - 1]
            }),
        forall|i: int|
            k * (w + 1) <= i < s.len() + k ==> #[trigger] col_inserted(s, w, at, vals, k)[i] == s[i
                - k],
    decreases k,
{
    if k <= 0 {
    } else {
        lemma_col_inserted_props(s, w, at, vals, rows, k - 1);
        let prev = col_inserted(s, w, at, vals, k - 1);
        let cur = col_inserted(s, w, at, vals, k);
        let p = at + (k - 1) * (w + 1);
        assert((k - 1) * (w + 1) == (k - 1) * w + (k - 1)) by (nonlinear_arith);
        assert(k * (w + 1) == k * w + k) by (nonlinear_arith);
        assert((k - 1) * w <= k * w <= rows * w) by (nonlinear_arith)
            requires
                1 <= w && 0 < k <= rows,
        ;
        assert(k * w == (k - 1) * w + w) by (nonlinear_arith);
        prev.insert_ensures(p, vals[k - 1]);
        assert(cur == prev.insert(p, vals[k - 1]));
        assert forall|r: int, c: int| 0 <= r < k && 0 <= c <= w implies #[trigger] cur[r * (w + 1)
            + c] == (if c < at {
            s[r * w + c]
        } else if c == at {
            vals[r]
        } else {
            s[r * w + c - 1]
        }) by {
            let q = r * (w + 1) + c;
            if r < k - 1 {
                lemma_mul_inequality(r + 1, k - 1, w + 1);
                assert((r + 1) * (w + 1) == r * (w + 1) + (w + 1)) by (nonlinear_arith);
                assert(q < p);
                assert(cur[q] == prev[q]);
            } else {
                assert(r == k - 1);
                assert(q == (k - 1) * (w + 1) + c);
                assert((k - 1) * w + c <= k * w) by (nonlinear_arith)
                    requires
                        c <= w && 0 < k,
                ;
                if c < at {
                    assert(q < p);
                    assert(cur[q] == prev[q]);
                    assert(prev[q] == s[q - (k - 1)]);
                } else if c == at {
                    assert(q == p);
                    assert(cur[q] == vals[k - 1]);
                } else {
                    assert(q > p);
                    assert(q - 1 >= (k - 1) * (w + 1));
                    assert(prev[q - 1] == s[q - 1 - (k - 1)]);
                    assert(cur[(q - 1) + 1] == prev[q - 1]);
                }
            }
        }
        assert forall|i: int| k * (w + 1) <= i < s.len() + k implies #[trigger] cur[i] == s[i
            - k] by {
            assert(p < k * (w + 1));
            assert(cur[(i - 1) + 1] == prev[i - 1]);
            assert(prev[i - 1] == s[i - 1 - (k - 1)]);
        }
    }
}

/// Some element of the flat buffer matches `val` exactly when some cell
/// `(r, c)` of the two-dimensional reading of that buffer matches it.
proof fn lemma_flat_match_is_cell_match<T: PartialEq>(g: Vec2d<T>, val: &T)
    requires
        g.wf(),
    ensures
        (exists|i: int| 0 <= i < g@.len() && val.eq_spec(&g@[i])) <==> (exists|r: int, c: int|
            0 <= r < g.spec_rows() && 0 <= c < g.spec_width() && val.eq_spec(&g.cell(r, c))),
{
    let w = g.spec_width();
    let rows = g.spec_rows();
    if exists|i: int| 0 <= i < g@.len() && val.eq_spec(&g@[i]) {
        let i = choose|i: int| 0 <= i < g@.len() && val.eq_spec(&g@[i]);
        assert(w > 0) by {
            if w == 0 {
                assert(g@.len() == rows * w);
            }
        }
        vstd::arithmetic::div_mod::lemma_fundamental_div_mod(i, w);
        vstd::arithmetic::div_mod::lemma_mod_division_less_than_divisor(i, w);
        vstd::arithmetic::div_mod::lemma_div_pos_is_pos(i, w);
        assert(i / w < rows) by {
            vstd::arithmetic::mul::lemma_mul_is_commutative(rows, w);
            vstd::arithmetic::div_mod::lemma_multiply_divide_lt(i, w, rows);
        }
        assert((i / w) * w == w * (i / w)) by (nonlinear_arith);
        assert(val.eq_spec(&g.cell(i / w, i % w)));
    }
    if exists|r: int, c: int| 0 <= r < rows && 0 <= c < w && val.eq_spec(&g.cell(r, c)) {
        let (r, c) = choose|r: int, c: int| 0 <= r < rows && 0 <= c < w && val.eq_spec(
            &g.cell(r, c),
        );
        lemma_cell_index_in_bounds(rows, w, r, c);
        assert(0 <= r * w + c < g@.len() && val.eq_spec(&g@[r * w + c]));
    }
}

/// A two-dimensional array. Unlike a standard vector, `Vec2d` must maintain a
/// constant number of elements equal to its number of rows times its number of
/// columns. The elements live in one flat buffer in row-major order; the row
/// count is derived from the buffer length and the column count (`width`).
#[derive(Clone)]
pub struct Vec2d<T> {
    data: Vec<T>,
    width: usize,
}

impl<T> View for Vec2d<T> {
    type V = Seq<T>;

    /// The flat, row-major contents of the array.
    closed spec fn view(&self) -> Seq<T> {
        self.data@
    }
}

impl<T: PartialEq> Vec2d<T> {
    /// Checks if `val` is equivalent to any of the elements in the array.
    /// Returns `true` if there is a match, `false` otherwise; on an empty
    /// array the answer is `false` for every value. Exact as long as the
    /// element type's `==` obeys its specification.
    pub fn contains(&self, val: &T) -> (found: bool)
        requires
            self.wf(),
        ensures
            T::obeys_eq_spec() ==> (found <==> exists|i: int|
                0 <= i < self@.len() && val.eq_spec(&self@[i])),
            T::obeys_eq_spec() ==> (found <==> exists|r: int, c: int|
                0 <= r < self.spec_rows() && 0 <= c < self.spec_width() && val.eq_spec(
                    &self.cell(r, c),
                )),
    {
        let n = self.count();
        let mut idx: usize = 0;
        while idx < n
            invariant
                self.wf(),
                n == self@.len(),
                idx <= n,
                T::obeys_eq_spec() ==> forall|i: int| 0 <= i < idx ==> !val.eq_spec(&self@[i]),
            decreases n - idx,
        {
            if *val == self.data[idx] {
                proof {
                    lemma_flat_match_is_cell_match(*self, val);
                }
                return true;
            }
            idx += 1;
        }
        proof {
            lemma_flat_match_is_cell_match(*self, val);
        }
        false
    }
}

impl<T> Vec2d<T> {
    /// The number of columns.
    pub closed spec fn spec_width(&self) -> int {
        self.width as int
    }

    /// The number of rows, derived from the buffer length and the width.
    pub open spec fn spec_rows(&self) -> int {
        if self.spec_width() == 0 {
            0
        } else {
            self@.len() as int / self.spec_width()
        }
    }

    /// Structural invariant: the buffer holds exactly `rows * width` elements,
    /// so no partial row persists and a zero-width array is empty.
    pub open spec fn wf(&self) -> bool {
        self@.len() == self.spec_rows() * self.spec_width()
    }

    /// The element in row `r`, column `c` of the row-major buffer.
    pub open spec fn cell(&self, r: int, c: int) -> T
        recommends
            0 <= r < self.spec_rows(),
            0 <= c < self.spec_width(),
    {
        self@[r * self.spec_width() + c]
    }

    /// Creates a new `Vec2d<T>` with no rows, columns, or elements.
    pub fn new() -> (v: Vec2d<T>)
        ensures
            v@.len() == 0,
            v.spec_width() == 0,
            v.wf(),
    {
        Vec2d { data: Vec::new(), width: 0 }
    }

    /// Returns the number of columns of the array.
    pub fn count_cols(&self) -> (n: usize)
        ensures
            n as int == self.spec_width(),
    {
        self.width
    }

    /// Returns the number of rows of the array.
    pub fn count_rows(&self) -> (n: usize)
        ensures
            n as int == self.spec_rows(),
    {
        if self.width == 0 {
            0
        } else {
            self.data.len() / self.width
        }
    }

    /// Returns the number of elements in the array.
    /// Equal to the number of rows times the number of columns.
    pub fn count(&self) -> (n: usize)
        requires
            self.wf(),
        ensures
            n == self@.len(),
            n as int == self.spec_rows() * self.spec_width(),
    {
        let rows = self.count_rows();
        let len = self.data.len();
        proof {
            assert(self.spec_width() * self.spec_rows() == self.spec_rows() * self.spec_width())
                by (nonlinear_arith);
            assert(len == self@.len());
        }
        self.width * rows
    }

    /// Returns the dimensions of the array as a tuple of (rows, cols).
    pub fn size(&self) -> (dims: (usize, usize))
        ensures
            dims.0 as int == self.spec_rows(),
            dims.1 as int == self.spec_width(),
    {
        (self.count_rows(), self.count_cols())
    }

    /// Returns a reference to the underlying flat vector.
    pub fn as_vec(&self) -> (v: &Vec<T>)
        ensures
            v@ == self@,
    {
        &self.data
    }

    /// Returns a reference to the element in row `row`, column `col`.
    pub fn get(&self, row: usize, col: usize) -> (r: &T)
        requires
            self.wf(),
            row < self.spec_rows(),
            col < self.spec_width(),
        ensures
            *r == self.cell(row as int, col as int),
    {
        let len = self.data.len();
        proof {
            assert(len == self@.len());
            lemma_cell_index_in_bounds(
                self.spec_rows(),
                self.spec_width(),
                row as int,
                col as int,
            );
        }
        let idx = row * self.width + col;
        &self.data[idx]
    }

    /// Returns a mutable reference to the element in row `row`, column `col`.
    /// Writing through the reference updates exactly that cell.
    pub fn get_mut(&mut self, row: usize, col: usize) -> (r: &mut T)
        requires
            old(self).wf(),
            row < old(self).spec_rows(),
            col < old(self).spec_width(),
        ensures
            *r == old(self).cell(row as int, col as int),
            final(self)@ == old(self)@.update(
                row as int * old(self).spec_width() + col as int,
                *final(r),
            ),
            final(self).spec_width() == old(self).spec_width(),
            final(self).spec_rows() == old(self).spec_rows(),
            final(self).wf(),
    {
        let len = self.data.len();
        proof {
            assert(len == self@.len());
            lemma_cell_index_in_bounds(
                self.spec_rows(),
                self.spec_width(),
                row as int,
                col as int,
            );
        }
        let idx = row * self.width + col;
        &mut self.data[idx]
    }

    /// Returns the contiguous row `row`: exactly `width` elements starting at
    /// flat position `row * width`.
    pub fn row(&self, row: usize) -> (r: &[T])
        requires
            self.wf(),
            row < self.spec_rows(),
        ensures
            r@.len() == self.spec_width(),
            r@ == self@.subrange(
                row as int * self.spec_width(),
                row as int * self.spec_width() + self.spec_width(),
            ),
            forall|c: int| 0 <= c < self.spec_width() ==> r@[c] == self.cell(row as int, c),
    {
        let len = self.data.len();
        proof {
            assert(len == self@.len());
            lemma_mul_inequality(row as int + 1, self.spec_rows(), self.spec_width());
            assert((row as int + 1) * self.spec_width()
                == row as int * self.spec_width() + self.spec_width()) by (nonlinear_arith);
            lemma_cell_index_in_bounds(self.spec_rows(), self.spec_width(), row as int, 0);
        }
        let start = row * self.width;
        let end = start + self.width;
        slice_subrange(self.data.as_slice(), start, end)
    }

    /// Creates a new `Vec2d<T>` and initializes its values from `initializer`,
    /// a passed-in function that takes the current cell index (row and column)
    /// and returns a `T`. Cells are filled in row-major order, so reading back
    /// cell `(r, c)` yields exactly what the initializer returned for `(r, c)`.
    pub fn from_fn<F: Fn(usize, usize) -> T>(rows: usize, cols: usize, initializer: &F) -> (v:
        Vec2d<T>)
        requires
            rows * cols <= usize::MAX,
            forall|r: usize, c: usize| r < rows && c < cols ==> initializer.requires((r, c)),
        ensures
            v.wf(),
            v.spec_width() == cols,
            v@.len() == rows * cols,
            cols > 0 ==> v.spec_rows() == rows,
            forall|r: usize, c: usize|
                r < rows && c < cols ==> initializer.ensures((r, c), v.cell(r as int, c as int)),
    {
        let v = Vec2d::new_empty(rows, cols).initialize_from_fn(rows, cols, initializer);
        proof {
            if cols > 0 {
                lemma_rows_of_multiple(v@.len() as int, rows as int, cols as int);
            }
        }
        v
    }

    /// Fills an empty buffer of width `cols` with `rows * cols` generated
    /// values, walking the linear index and deriving (row, col) from it.
    fn initialize_from_fn<F: Fn(usize, usize) -> T>(
        self,
        rows: usize,
        cols: usize,
        initializer: &F,
    ) -> (v: Vec2d<T>)
        requires
            self@.len() == 0,
            self.spec_width() == cols,
            rows * cols <= usize::MAX,
            forall|r: usize, c: usize| r < rows && c < cols ==> initializer.requires((r, c)),
        ensures
            v.spec_width() == cols,
            v@.len() == rows * cols,
            forall|r: usize, c: usize|
                r < rows && c < cols ==> initializer.ensures((r, c), v.cell(r as int, c as int)),
    {
        let mut out = self;
        let size = rows * cols;
        let mut idx: usize = 0;
        while idx < size
            invariant
                out.spec_width() == cols,
                size == rows * cols,
                idx <= size,
                out@.len() == idx,
                forall|r: usize, c: usize| r < rows && c < cols ==> initializer.requires((r, c)),
                forall|k: int|
                    0 <= k < idx ==> initializer.ensures(
                        (((k / cols as int) as usize), ((k % cols as int) as usize)),
                        out@[k],
                    ),
            decreases size - idx,
        {
            proof {
                if cols == 0 {
                    vstd::arithmetic::mul::lemma_mul_by_zero_is_zero(rows as int);
                }
                vstd::arithmetic::mul::lemma_mul_is_commutative(rows as int, cols as int);
                vstd::arithmetic::div_mod::lemma_multiply_divide_lt(
                    idx as int,
                    cols as int,
                    rows as int,
                );
            }
            let row = idx / out.width;
            proof {
                vstd::arithmetic::div_mod::lemma_fundamental_div_mod(idx as int, cols as int);
                vstd::arithmetic::div_mod::lemma_mod_division_less_than_divisor(
                    idx as int,
                    cols as int,
                );
                vstd::arithmetic::mul::lemma_mul_is_commutative(row as int, cols as int);
            }
            let col = idx - row * out.width;
            proof {
                assert(col as int == idx as int % cols as int);
            }
            let value = initializer(row, col);
            out.data.push(value);
            idx += 1;
        }
        proof {
            assert forall|r: usize, c: usize| r < rows && c < cols implies initializer.ensures(
                (r, c),
                out.cell(r as int, c as int),
            ) by {
                let k = r as int * cols as int + c as int;
                lemma_cell_index_in_bounds(rows as int, cols as int, r as int, c as int);
                vstd::arithmetic::mul::lemma_mul_is_commutative(rows as int, cols as int);
                vstd::arithmetic::div_mod::lemma_fundamental_div_mod_converse(
                    k,
                    cols as int,
                    r as int,
                    c as int,
                );
            }
        }
        out
    }

    /// An array of the requested shape with no elements filled in yet.
    fn new_empty(rows: usize, cols: usize) -> (v: Vec2d<T>)
        requires
            rows * cols <= usize::MAX,
        ensures
            v@.len() == 0,
            v.spec_width() == cols,
    {
        Vec2d { data: Vec::with_capacity(rows * cols), width: cols }
    }
}

impl<T: Default> Vec2d<T> {
    /// Creates a new `Vec2d<T>` and initializes all the values to `T::default()`.
    pub fn new_with_default(rows: usize, cols: usize) -> (v: Vec2d<T>)
        requires
            rows * cols <= usize::MAX,
        ensures
            v.wf(),
            v.spec_width() == cols,
            v@.len() == rows * cols,
            cols > 0 ==> v.spec_rows() == rows,
            forall|i: int| 0 <= i < v@.len() ==> call_ensures(T::default, (), v@[i]),
            forall|r: int, c: int|
                0 <= r < v.spec_rows() && 0 <= c < v.spec_width() ==> call_ensures(
                    T::default,
                    (),
                    v.cell(r, c),
                ),
    {
        let v = Vec2d::new_empty(rows, cols).initialize_to_default(rows * cols);
        proof {
            if cols > 0 {
                lemma_rows_of_multiple(v@.len() as int, rows as int, cols as int);
            }
            assert forall|r: int, c: int|
                0 <= r < v.spec_rows() && 0 <= c < v.spec_width() implies call_ensures(
                T::default,
                (),
                v.cell(r, c),
            ) by {
                lemma_cell_index_in_bounds(v.spec_rows(), v.spec_width(), r, c);
            }
        }
        v
    }

    /// Adds a new row to the array and sets all elements of that row to
    /// `T::default()`. If the array is empty, creates a row of one element.
    pub fn add_row_of_default(&mut self)
        requires
            old(self).wf(),
            old(self)@.len() + (if old(self).spec_width() == 0 {
                1int
            } else {
                old(self).spec_width()
            }) <= usize::MAX,
        ensures
            final(self).wf(),
            final(self).spec_width() == if old(self).spec_width() == 0 {
                1int
            } else {
                old(self).spec_width()
            },
            final(self).spec_rows() == old(self).spec_rows() + 1,
            final(self)@.len() == old(self)@.len() + final(self).spec_width(),
            final(self)@.subrange(0, old(self)@.len() as int) == old(self)@,
            forall|r: int, c: int|
                0 <= r < old(self).spec_rows() && 0 <= c < old(self).spec_width()
                    ==> final(self).cell(r, c) == old(self).cell(r, c),
            forall|i: int|
                old(self)@.len() <= i < final(self)@.len() ==> call_ensures(
                    T::default,
                    (),
                    final(self)@[i],
                ),
    {
        let ghost orig = *self;
        if self.width == 0 {
            self.width += 1;
        }
        proof {
            if orig.spec_width() == 0 {
                assert(self.spec_rows() * self.spec_width() == 0) by (nonlinear_arith)
                    requires
                        self.spec_rows() == 0,
                ;
            }
        }
        let size = self.count() + self.width;
        while self.data.len() < size
            invariant
                self.spec_width() == if orig.spec_width() == 0 {
                    1int
                } else {
                    orig.spec_width()
                },
                orig@.len() <= self@.len() <= size,
                size == orig@.len() + self.spec_width(),
                self@.subrange(0, orig@.len() as int) == orig@,
                forall|i: int|
                    orig@.len() <= i < self@.len() ==> call_ensures(T::default, (), self@[i]),
            decreases size - self@.len(),
        {
            self.data.push(T::default());
            proof {
                assert(self@.subrange(0, orig@.len() as int) =~= orig@);
            }
        }
        proof {
            let w = self.spec_width();
            let orig_rows = orig.spec_rows();
            assert(self@.len() == (orig_rows + 1) * w) by (nonlinear_arith)
                requires
                    self@.len() == orig_rows * w + w,
            ;
            lemma_rows_of_multiple(self@.len() as int, orig_rows + 1, w);
            assert forall|r: int, c: int|
                0 <= r < orig.spec_rows() && 0 <= c < orig.spec_width() implies self.cell(r, c)
                == orig.cell(r, c) by {
                lemma_cell_index_in_bounds(orig.spec_rows(), orig.spec_width(), r, c);
            }
        }
    }

    /// Adds a new column to the array and sets all elements of the column to
    /// `T::default()`. A default item is inserted at the position representing
    /// the end of each row; that position shifts as elements are added.
    pub fn add_col_of_default(&mut self)
        requires
            old(self).wf(),
            old(self)@.len() + old(self).spec_rows() + old(self).spec_width() + 1 <= usize::MAX,
        ensures
            final(self).wf(),
            final(self).spec_width() == old(self).spec_width() + 1,
            final(self).spec_rows() == old(self).spec_rows(),
            final(self)@.len() == old(self)@.len() + old(self).spec_rows(),
            forall|r: int, c: int|
                0 <= r < old(self).spec_rows() && 0 <= c < old(self).spec_width()
                    ==> final(self).cell(r, c) == old(self).cell(r, c),
            forall|r: int|
                0 <= r < old(self).spec_rows() ==> call_ensures(
                    T::default,
                    (),
                    #[trigger] final(self).cell(r, old(self).spec_width()),
                ),
    {
        let ghost orig = *self;
        let ghost w = orig.spec_width();
        let ghost rows = orig.spec_rows();
        let ghost mut vals: Seq<T> = Seq::empty();
        let new_width = self.width + 1;
        let nrows = self.count_rows();
        let mut idx = self.width;
        let mut row: usize = 0;
        while row < nrows
            invariant
                row <= rows,
                nrows == rows,
                vals.len() == row,
                forall|i: int| 0 <= i < row ==> call_ensures(T::default, (), vals[i]),
                orig.wf(),
                orig@.len() == rows * w,
                w >= 0,
                w == 0 ==> rows == 0,
                self.spec_width() == w,
                new_width == w + 1,
                idx as int == w + row * (w + 1),
                self@ == col_inserted(orig@, w, w, vals, row as int),
                orig@.len() + rows + w + 1 <= usize::MAX,
            decreases nrows - row,
        {
            proof {
                lemma_col_inserted_props(orig@, w, w, vals, rows, row as int);
                assert(row * (w + 1) == row * w + row) by (nonlinear_arith);
                assert(row * w + w <= rows * w) by (nonlinear_arith)
                    requires
                        0 <= row < rows && 1 <= w,
                ;
                assert((row + 1) * (w + 1) == row * (w + 1) + (w + 1)) by (nonlinear_arith);
                lemma_mul_inequality(row as int + 1, rows, w + 1);
                assert(rows * (w + 1) == rows * w + rows) by (nonlinear_arith);
            }
            let value = T::default();
            proof {
                lemma_col_inserted_vals_prefix(orig@, w, w, vals.push(value), vals, row as int);
                vals = vals.push(value);
            }
            self.data.insert(idx, value);
            idx += new_width;
            row += 1;
        }
        self.width = new_width;
        proof {
            if w == 0 {
                assert(self@ == orig@);
            } else {
                lemma_col_inserted_props(orig@, w, w, vals, rows, rows);
            }
            assert(rows * w + rows == rows * (w + 1)) by (nonlinear_arith);
            lemma_rows_of_multiple(self@.len() as int, rows, w + 1);
            assert forall|r: int, c: int| 0 <= r < rows && 0 <= c < w implies self.cell(r, c)
                == orig.cell(r, c) by {
                assert(col_inserted(orig@, w, w, vals, rows)[r * (w + 1) + c] == orig@[r * w + c]);
                lemma_cell_index_in_bounds(rows, w, r, c);
            }
            assert forall|r: int| 0 <= r < rows implies call_ensures(
                T::default,
                (),
                self.cell(r, w),
            ) by {
                assert(col_inserted(orig@, w, w, vals, rows)[r * (w + 1) + w] == vals[r]);
            }
        }
    }

    /// Pushes `T::default()` until the buffer holds `size` elements.
    fn initialize_to_default(self, size: usize) -> (v: Vec2d<T>)
        requires
            self@.len() <= size,
        ensures
            v.spec_width() == self.spec_width(),
            v@.len() == size,
            v@.subrange(0, self@.len() as int) == self@,
            forall|i: int| self@.len() <= i < size ==> call_ensures(T::default, (), v@[i]),
    {
        let mut out = self;
        while out.data.len() < size
            invariant
                out.spec_width() == self.spec_width(),
                self@.len() <= out@.len() <= size,
                out@.subrange(0, self@.len() as int) == self@,
                forall|i: int| self@.len() <= i < out@.len() ==> call_ensures(
                    T::default,
                    (),
                    out@[i],
                ),
            decreases size - out@.len(),
        {
            out.data.push(T::default());
            proof {
                assert(out@.subrange(0, self@.len() as int) == self@);
            }
        }
        out
    }
}

impl<T: Copy> Vec2d<T> {
    /// Creates a new `Vec2d<T>` and initializes all the values to a copy of `val`.
    pub fn new_with_value(rows: usize, cols: usize, val: T) -> (v: Vec2d<T>)
        requires
            rows * cols <= usize::MAX,
        ensures
            v.wf(),
            v.spec_width() == cols,
            v@.len() == rows * cols,
            cols > 0 ==> v.spec_rows() == rows,
            forall|i: int| 0 <= i < v@.len() ==> v@[i] == val,
            forall|r: int, c: int|
                0 <= r < v.spec_rows() && 0 <= c < v.spec_width() ==> v.cell(r, c) == val,
    {
        let v = Vec2d::new_empty(rows, cols).initialize_to_value(rows * cols, val);
        proof {
            if cols > 0 {
                lemma_rows_of_multiple(v@.len() as int, rows as int, cols as int);
            }
            assert forall|r: int, c: int|
                0 <= r < v.spec_rows() && 0 <= c < v.spec_width() implies v.cell(r, c) == val by {
                lemma_cell_index_in_bounds(v.spec_rows(), v.spec_width(), r, c);
            }
        }
        v
    }

    /// Creates a new `Vec2d<T>` from an array slice. The slice must have a
    /// length that is an exact multiple of `width`; such a mismatch is a
    /// caller's contract violation. The array is filled left to right, top to
    /// bottom.
    pub fn from(width: usize, arr: &[T]) -> (v: Vec2d<T>)
        requires
            width > 0,
            arr@.len() as int % (width as int) == 0,
        ensures
            v.wf(),
            v.spec_width() == width,
            v@ == arr@,
            v.spec_rows() == arr@.len() as int / width as int,
            forall|r: int, c: int|
                0 <= r < v.spec_rows() && 0 <= c < v.spec_width() ==> v.cell(r, c) == arr@[r
                    * width as int + c],
    {
        let size = arr.len();
        let mut data: Vec<T> = Vec::with_capacity(size);
        let mut idx: usize = 0;
        while idx < size
            invariant
                idx <= size,
                size == arr@.len(),
                data@ == arr@.subrange(0, idx as int),
            decreases size - idx,
        {
            data.push(arr[idx]);
            idx += 1;
            proof {
                assert(data@ == arr@.subrange(0, idx as int));
            }
        }
        let v = Vec2d { data, width };
        proof {
            assert(v@ == arr@);
            vstd::arithmetic::div_mod::lemma_fundamental_div_mod(v@.len() as int, width as int);
            vstd::arithmetic::mul::lemma_mul_is_commutative(
                width as int,
                v@.len() as int / width as int,
            );
        }
        v
    }

    /// Adds a row of data at the bottom of the array. The length of the slice
    /// `data` must be exactly equal to the array width; on an empty array the
    /// width becomes the length of `data` and this is the first row.
    pub fn push_row(&mut self, data: &[T])
        requires
            old(self).wf(),
            old(self).spec_width() > 0 ==> data@.len() == old(self).spec_width(),
            old(self)@.len() + data@.len() <= usize::MAX,
        ensures
            final(self).wf(),
            final(self)@ == old(self)@ + data@,
            final(self).spec_width() == if old(self).spec_width() > 0 {
                old(self).spec_width()
            } else {
                data@.len() as int
            },
            data@.len() > 0 || old(self).spec_width() > 0 ==> final(self).spec_rows() == old(
                self,
            ).spec_rows() + 1,
            forall|r: int, c: int|
                0 <= r < old(self).spec_rows() && 0 <= c < old(self).spec_width()
                    ==> final(self).cell(r, c) == old(self).cell(r, c),
            forall|c: int|
                0 <= c < final(self).spec_width() ==> #[trigger] final(self).cell(old(self).spec_rows(), c)
                    == data@[c],
    {
        let ghost orig = *self;
        if self.width == 0 {
            self.width = data.len();
        }
        let mut j: usize = 0;
        while j < data.len()
            invariant
                j <= data@.len(),
                self@ == orig@ + data@.subrange(0, j as int),
                self.spec_width() == if orig.spec_width() > 0 {
                    orig.spec_width()
                } else {
                    data@.len() as int
                },
                orig@.len() + data@.len() <= usize::MAX,
            decreases data@.len() - j,
        {
            proof {
                assert(self@ =~= orig@ + data@.subrange(0, j as int));
            }
            self.data.push(data[j]);
            j += 1;
            proof {
                assert(self@ =~= orig@ + data@.subrange(0, j as int));
            }
        }
        proof {
            assert(self@ =~= orig@ + data@);
            let w = self.spec_width();
            let orig_rows = orig.spec_rows();
            if w > 0 {
                if orig.spec_width() == 0 {
                    assert(orig_rows * w == 0) by (nonlinear_arith)
                        requires
                            orig_rows == 0,
                    ;
                }
                assert(self@.len() == (orig_rows + 1) * w) by (nonlinear_arith)
                    requires
                        self@.len() == orig_rows * w + w,
                ;
                lemma_rows_of_multiple(self@.len() as int, orig_rows + 1, w);
                assert forall|c: int| 0 <= c < w implies self.cell(orig_rows, c) == data@[c] by {
                    vstd::arithmetic::mul::lemma_mul_is_commutative(orig_rows, w);
                }
            }
            assert forall|r: int, c: int|
                0 <= r < orig.spec_rows() && 0 <= c < orig.spec_width() implies self.cell(r, c)
                == orig.cell(r, c) by {
                lemma_cell_index_in_bounds(orig.spec_rows(), orig.spec_width(), r, c);
            }
        }
    }

    /// Inserts a column of data immediately before the column indicated by
    /// `index`, shifting that column and the ones after it right by one within
    /// every row. The length of `data` must equal the number of rows. On an
    /// empty array the data becomes a single column, whatever `index` is.
    pub fn insert_col(&mut self, index: usize, data: &[T])
        requires
            old(self).wf(),
            old(self).spec_width() > 0 ==> data@.len() == old(self).spec_rows() && index <= old(
                self,
            ).spec_width(),
            old(self)@.len() + old(self).spec_rows() + old(self).spec_width() + 1 <= usize::MAX,
        ensures
            final(self).wf(),
            old(self).spec_width() == 0 ==> final(self)@ == data@ && final(self).spec_width() == 1
                && final(self).spec_rows() == data@.len(),
            old(self).spec_width() > 0 ==> final(self).spec_width() == old(self).spec_width() + 1
                && final(self).spec_rows() == old(self).spec_rows(),
            old(self).spec_width() > 0 ==> forall|r: int, c: int|
                0 <= r < old(self).spec_rows() && 0 <= c < index ==> final(self).cell(r, c) == old(
                    self,
                ).cell(r, c),
            old(self).spec_width() > 0 ==> forall|r: int|
                0 <= r < old(self).spec_rows() ==> #[trigger] final(self).cell(r, index as int) == data@[r],
            old(self).spec_width() > 0 ==> forall|r: int, c: int|
                0 <= r < old(self).spec_rows() && index <= c < old(self).spec_width()
                    ==> final(self).cell(r, c + 1) == old(self).cell(r, c),
    {
        let ghost orig = *self;
        let ghost w = orig.spec_width();
        let ghost rows = orig.spec_rows();
        let size = data.len();
        if self.width == 0 {
            self.width = 1;
            let mut j: usize = 0;
            while j < size
                invariant
                    j <= size,
                    size == data@.len(),
                    self@ == data@.subrange(0, j as int),
                    self.spec_width() == 1,
                decreases size - j,
            {
                self.data.push(data[j]);
                j += 1;
                proof {
                    assert(self@ =~= data@.subrange(0, j as int));
                }
            }
            proof {
                assert(self@ =~= data@);
                assert(self@.len() as int * 1 == self@.len()) by (nonlinear_arith);
                lemma_rows_of_multiple(self@.len() as int, self@.len() as int, 1);
            }
        } else {
            let mut idx = index;
            self.width += 1;
            let mut row: usize = 0;
            while row < size
                invariant
                    row <= size,
                    size == data@.len(),
                    data@.len() == rows,
                    1 <= w,
                    index <= w,
                    orig.wf(),
                    orig@.len() == rows * w,
                    self.spec_width() == w + 1,
                    idx as int == index + row * (w + 1),
                    self@ == col_inserted(orig@, w, index as int, data@, row as int),
                    orig@.len() + rows + w + 1 <= usize::MAX,
                decreases size - row,
            {
                proof {
                    lemma_col_inserted_props(orig@, w, index as int, data@, rows, row as int);
                    assert(row * (w + 1) == row * w + row) by (nonlinear_arith);
                    assert(row * w + w <= rows * w) by (nonlinear_arith)
                        requires
                            0 <= row < rows && 1 <= w,
                    ;
                    assert((row + 1) * (w + 1) == row * (w + 1) + (w + 1)) by (nonlinear_arith);
                    lemma_mul_inequality(row as int + 1, rows, w + 1);
                    assert(rows * (w + 1) == rows * w + rows) by (nonlinear_arith);
                }
                self.data.insert(idx, data[row]);
                idx += self.width;
                row += 1;
            }
            proof {
                lemma_col_inserted_props(orig@, w, index as int, data@, rows, rows);
                assert(rows * w + rows == rows * (w + 1)) by (nonlinear_arith);
                lemma_rows_of_multiple(self@.len() as int, rows, w + 1);
                assert forall|r: int, c: int| 0 <= r < rows && 0 <= c < index implies self.cell(
                    r,
                    c,
                ) == orig.cell(r, c) by {
                    assert(col_inserted(orig@, w, index as int, data@, rows)[r * (w + 1) + c]
                        == orig@[r * w + c]);
                    lemma_cell_index_in_bounds(rows, w, r, c);
                }
                assert forall|r: int| 0 <= r < rows implies self.cell(r, index as int)
                    == data@[r] by {
                    assert(col_inserted(orig@, w, index as int, data@, rows)[r * (w + 1)
                        + index as int] == data@[r]);
                }
                assert forall|r: int, c: int|
                    0 <= r < rows && index <= c < w implies self.cell(r, c + 1) == orig.cell(
                    r,
                    c,
                ) by {
                    assert(col_inserted(orig@, w, index as int, data@, rows)[r * (w + 1) + (c + 1)]
                        == orig@[r * w + (c + 1) - 1]);
                    lemma_cell_index_in_bounds(rows, w, r, c);
                }
            }
        }
    }

    /// Adds a new column of data to the right edge of the array. The length of
    /// `data` must be exactly equal to the number of rows; an empty array
    /// becomes a single column holding `data`.
    pub fn push_col(&mut self, data: &[T])
        requires
            old(self).wf(),
            old(self).spec_width() > 0 ==> data@.len() == old(self).spec_rows(),
            old(self)@.len() + old(self).spec_rows() + old(self).spec_width() + 1 <= usize::MAX,
        ensures
            final(self).wf(),
            old(self).spec_width() == 0 ==> final(self)@ == data@ && final(self).spec_width() == 1
                && final(self).spec_rows() == data@.len(),
            old(self).spec_width() > 0 ==> final(self).spec_width() == old(self).spec_width() + 1
                && final(self).spec_rows() == old(self).spec_rows(),
            old(self).spec_width() > 0 ==> forall|r: int, c: int|
                0 <= r < old(self).spec_rows() && 0 <= c < old(self).spec_width()
                    ==> final(self).cell(r, c) == old(self).cell(r, c),
            old(self).spec_width() > 0 ==> forall|r: int|
                0 <= r < old(self).spec_rows() ==> #[trigger] final(self).cell(r, old(self).spec_width())
                    == data@[r],
    {
        let cols = self.count_cols();
        self.insert_col(cols, data);
    }

    /// Inserts a row of data immediately before the row indicated by `index`,
    /// shifting that row and the ones after it down by one. On an empty array
    /// this behaves exactly like `push_row`, whatever `index` is.
    pub fn insert_row(&mut self, index: usize, data: &[T])
        requires
            old(self).wf(),
            old(self).spec_width() > 0 ==> data@.len() == old(self).spec_width() && index <= old(
                self,
            ).spec_rows(),
            old(self)@.len() + data@.len() <= usize::MAX,
        ensures
            final(self).wf(),
            old(self).spec_width() == 0 ==> final(self)@ == data@ && final(self).spec_width()
                == data@.len(),
            old(self).spec_width() > 0 ==> final(self)@ == row_inserted(
                old(self)@,
                old(self).spec_width(),
                index as int,
                data@,
            ),
            old(self).spec_width() > 0 ==> final(self).spec_width() == old(self).spec_width()
                && final(self).spec_rows() == old(self).spec_rows() + 1,
            old(self).spec_width() > 0 ==> forall|r: int, c: int|
                0 <= r < index && 0 <= c < old(self).spec_width() ==> final(self).cell(r, c) == old(
                    self,
                ).cell(r, c),
            old(self).spec_width() > 0 ==> forall|c: int|
                0 <= c < old(self).spec_width() ==> #[trigger] final(self).cell(index as int, c) == data@[c],
            old(self).spec_width() > 0 ==> forall|r: int, c: int|
                index <= r < old(self).spec_rows() && 0 <= c < old(self).spec_width()
                    ==> final(self).cell(r + 1, c) == old(self).cell(r, c),
    {
        let ghost orig = *self;
        if self.width > 0 {
            proof {
                lemma_mul_inequality(index as int, orig.spec_rows(), orig.spec_width());
                vstd::arithmetic::mul::lemma_mul_is_commutative(index as int, orig.spec_width());
                vstd::arithmetic::mul::lemma_mul_is_commutative(
                    orig.spec_rows(),
                    orig.spec_width(),
                );
            }
            let mut idx = self.width * index;
            let ghost p = orig.spec_width() * index as int;
            let mut j: usize = 0;
            while j < data.len()
                invariant
                    j <= data@.len(),
                    idx as int == p + j,
                    0 <= p <= orig@.len(),
                    self@ == orig@.subrange(0, p) + data@.subrange(0, j as int) + orig@.subrange(
                        p,
                        orig@.len() as int,
                    ),
                    self.spec_width() == orig.spec_width(),
                    orig@.len() + data@.len() <= usize::MAX,
                decreases data@.len() - j,
            {
                self.data.insert(idx, data[j]);
                idx += 1;
                j += 1;
                proof {
                    assert(self@ =~= orig@.subrange(0, p) + data@.subrange(0, j as int)
                        + orig@.subrange(p, orig@.len() as int));
                }
            }
            proof {
                assert(data@.subrange(0, data@.len() as int) =~= data@);
                let w = orig.spec_width();
                let orig_rows = orig.spec_rows();
                assert(self@.len() == (orig_rows + 1) * w) by (nonlinear_arith)
                    requires
                        self@.len() == orig_rows * w + w,
                ;
                lemma_rows_of_multiple(self@.len() as int, orig_rows + 1, w);
                assert forall|r: int, c: int|
                    0 <= r < index && 0 <= c < w implies self.cell(r, c) == orig.cell(r, c) by {
                    lemma_cell_index_in_bounds(index as int, w, r, c);
                    vstd::arithmetic::mul::lemma_mul_is_commutative(index as int, w);
                }
                assert forall|c: int| 0 <= c < w implies self.cell(index as int, c)
                    == data@[c] by {
                    vstd::arithmetic::mul::lemma_mul_is_commutative(index as int, w);
                }
                assert forall|r: int, c: int|
                    index <= r < orig_rows && 0 <= c < w implies self.cell(r + 1, c) == orig.cell(
                    r,
                    c,
                ) by {
                    lemma_cell_index_in_bounds(orig_rows, w, r, c);
                    lemma_mul_inequality(index as int, r, w);
                    vstd::arithmetic::mul::lemma_mul_is_commutative(index as int, w);
                    vstd::arithmetic::mul::lemma_mul_is_commutative(r, w);
                    assert((r + 1) * w == r * w + w) by (nonlinear_arith);
                }
            }
        } else {
            self.push_row(data);
        }
    }

    /// Pushes copies of `val` until the buffer holds `size` elements.
    fn initialize_to_value(self, size: usize, val: T) -> (v: Vec2d<T>)
        requires
            self@.len() <= size,
        ensures
            v.spec_width() == self.spec_width(),
            v@.len() == size,
            v@.subrange(0, self@.len() as int) == self@,
            forall|i: int| self@.len() <= i < size ==> v@[i] == val,
    {
        let mut out = self;
        while out.data.len() < size
            invariant
                out.spec_width() == self.spec_width(),
                self@.len() <= out@.len() <= size,
                out@.subrange(0, self@.len() as int) == self@,
                forall|i: int| self@.len() <= i < out@.len() ==> out@[i] == val,
            decreases size - out@.len(),
        {
            out.data.push(val);
            proof {
                assert(out@.subrange(0, self@.len() as int) == self@);
            }
        }
        out
    }
}

} // verus!

