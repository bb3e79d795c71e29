use vstd::prelude::*;

verus! {

use crate::vec2d::Vec2d;

/// Adds methods to access elements through wrapping indices, such as row `-1`
/// for the last row: a signed index is brought into range by repeatedly adding
/// or subtracting the dimension's size, which is modular arithmetic.
pub struct WrappingVec2d<T> {
    data: Vec2d<T>,
}

#[allow(non_camel_case_types)]
pub type wsize = isize;

/// The in-range index that a signed index `v` resolves to against a dimension
/// of size `n`: the unique value in `[0, n)` congruent to `v` modulo `n`.
pub open spec fn wrap_index(v: int, n: int) -> int
    recommends
        n > 0,
{
    v % n
}

/// Wrapped resolution is periodic: shifting a signed index by any whole number
/// of periods `k * n` resolves to the same in-range index, and that index
/// always lies in `[0, n)`.
pub proof fn lemma_wrap_index_periodic(v: int, k: int, n: int)
    requires
        n > 0,
    ensures
        wrap_index(v + k * n, n) == wrap_index(v, n),
        0 <= wrap_index(v, n) < n,
{
    vstd::arithmetic::div_mod::lemma_mod_multiples_vanish(k, v, n);
    vstd::arithmetic::div_mod::lemma_mod_division_less_than_divisor(v, n);
    vstd::arithmetic::mul::lemma_mul_is_commutative(k, n);
}

/// Brings a signed index into `[0, num)` by repeatedly adding `num` while the
/// value is negative and subtracting `num` while it is not below `num`: the
/// wrapped resolution of `val` against a dimension of size `num`.
fn get_index(val: wsize, num: wsize) -> (r: usize)
    requires
        num > 0,
    ensures
        r as int == wrap_index(val as int, num as int),
        r < num,
{
    let mut cur = val;
    while cur < 0
        invariant
            num > 0,
            cur as int % (num as int) == val as int % (num as int),
        decreases isize::MAX - cur,
    {
        proof {
            vstd::arithmetic::div_mod::lemma_mod_add_multiples_vanish(cur as int, num as int);
        }
        cur += num;
    }
    while cur >= num
        invariant
            num > 0,
            cur >= 0,
            cur as int % (num as int) == val as int % (num as int),
        decreases cur,
    {
        proof {
            vstd::arithmetic::div_mod::lemma_mod_sub_multiples_vanish(cur as int, num as int);
        }
        cur -= num;
    }
    proof {
        vstd::arithmetic::div_mod::lemma_small_mod(cur as nat, num as nat);
    }
    cur as usize
}

impl<T> WrappingVec2d<T> {
    /// The wrapped array.
    pub closed spec fn grid(&self) -> Vec2d<T> {
        self.data
    }

    /// Returns a mutable reference to the wrapped array.
    pub fn mut_array(&mut self) -> (r: &mut Vec2d<T>)
        ensures
            *r == old(self).grid(),
            final(self).grid() == *final(r),
    {
        &mut self.data
    }

    /// Returns a reference to the wrapped array.
    pub fn array(&self) -> (r: &Vec2d<T>)
        ensures
            *r == self.grid(),
    {
        &self.data
    }

    /// Returns the number of columns of the array, as a signed index.
    pub fn count_cols(&self) -> (n: wsize)
        requires
            self.grid().spec_width() <= isize::MAX,
        ensures
            n as int == self.grid().spec_width(),
    {
        let cols = self.array().count_cols();
        cols as wsize
    }

    /// Returns the number of rows of the array, as a signed index.
    pub fn count_rows(&self) -> (n: wsize)
        requires
            self.grid().spec_rows() <= isize::MAX,
        ensures
            n as int == self.grid().spec_rows(),
    {
        let rows = self.array().count_rows();
        rows as wsize
    }

    /// Resolves a signed, possibly out-of-range column index to the in-range
    /// column it wraps to.
    pub fn get_col_index(&self, col: wsize) -> (c: usize)
        requires
            0 < self.grid().spec_width() <= isize::MAX,
        ensures
            c as int == wrap_index(col as int, self.grid().spec_width()),
            c < self.grid().spec_width(),
    {
        let n_cols = self.data.count_cols() as wsize;
        get_index(col, n_cols)
    }

    /// Resolves a signed, possibly out-of-range row index to the in-range row
    /// it wraps to.
    pub fn get_row_index(&self, row: wsize) -> (r: usize)
        requires
            0 < self.grid().spec_rows() <= isize::MAX,
        ensures
            r as int == wrap_index(row as int, self.grid().spec_rows()),
            r < self.grid().spec_rows(),
    {
        let n_rows = self.data.count_rows() as wsize;
        get_index(row, n_rows)
    }

    /// Returns a reference to the element whose wrapped position is
    /// `(row, col)`.
    pub fn index(&self, row: wsize, col: wsize) -> (r: &T)
        requires
            self.grid().wf(),
            0 < self.grid().spec_rows() <= isize::MAX,
            0 < self.grid().spec_width() <= isize::MAX,
        ensures
            *r == self.grid().cell(
                wrap_index(row as int, self.grid().spec_rows()),
                wrap_index(col as int, self.grid().spec_width()),
            ),
    {
        let row: usize = self.get_row_index(row);
        let col: usize = self.get_col_index(col);
        self.array().get(row, col)
    }

    /// Returns a mutable reference to the element whose wrapped position is
    /// `(row, col)`. Writing through the reference updates exactly that cell.
    pub fn index_mut(&mut self, row: wsize, col: wsize) -> (r: &mut T)
        requires
            old(self).grid().wf(),
            0 < old(self).grid().spec_rows() <= isize::MAX,
            0 < old(self).grid().spec_width() <= isize::MAX,
        ensures
            *r == old(self).grid().cell(
                wrap_index(row as int, old(self).grid().spec_rows()),
                wrap_index(col as int, old(self).grid().spec_width()),
            ),
            final(self).grid()@ == old(self).grid()@.update(
                wrap_index(row as int, old(self).grid().spec_rows()) * old(
                    self,
                ).grid().spec_width() + wrap_index(col as int, old(self).grid().spec_width()),
                *final(r),
            ),
            final(self).grid().spec_width() == old(self).grid().spec_width(),
            final(self).grid().spec_rows() == old(self).grid().spec_rows(),
            final(self).grid().wf(),
    {
        let row: usize = self.get_row_index(row);
        let col: usize = self.get_col_index(col);
        self.data.get_mut(row, col)
    }
}

impl<T: Copy> WrappingVec2d<T> {
    /// Builds the array from an array slice, exactly as `Vec2d::from` does.
    pub fn from(width: usize, data: &[T]) -> (w: WrappingVec2d<T>)
        requires
            width > 0,
            data@.len() as int % (width as int) == 0,
        ensures
            w.grid().wf(),
            w.grid()@ == data@,
            w.grid().spec_width() == width,
            w.grid().spec_rows() == data@.len() as int / width as int,
    {
        WrappingVec2d { data: Vec2d::from(width, data) }
    }

    /// Wraps an existing array.
    pub fn from_vec2d(data: Vec2d<T>) -> (w: WrappingVec2d<T>)
        ensures
            w.grid() == data,
    {
        WrappingVec2d { data: data }
    }
}

} // verus!

