use num_traits::Euclid;
use vstd::prelude::*;

verus! {

/// Linear index of the cell at column `x`, row `y` and slice `z` of a grid
/// with `n` cells per row: x runs fastest, then y, then z.
pub open spec fn cell_index(n: int, x: int, y: int, z: int) -> int {
    x + n * y + n * n * z
}

/// A grid coordinate clamped to the rows of a grid with `n` cells per row.
pub open spec fn clamp_coordinate(n: int, v: int) -> int {
    if v < 0 {
        0
    } else if v > n - 1 {
        n - 1
    } else {
        v
    }
}

/// Clamping takes a coordinate to the nearest row of the grid: the result
/// is a row, it is no farther from the coordinate than any other row, it
/// leaves rows as they are, and it keeps the order of coordinates.
pub proof fn lemma_clamp_nearest_row(n: int, v: int, w: int, row: int)
    requires
        n >= 1,
        0 <= row < n,
    ensures
        0 <= clamp_coordinate(n, v) < n,
        (if v >= clamp_coordinate(n, v) {
            v - clamp_coordinate(n, v)
        } else {
            clamp_coordinate(n, v) - v
        }) <= (if v >= row {
            v - row
        } else {
            row - v
        }),
        0 <= v < n ==> clamp_coordinate(n, v) == v,
        v <= w ==> clamp_coordinate(n, v) <= clamp_coordinate(n, w),
{
}

/// A cell index read as a signed 32-bit number: its low 32 bits, in two's
/// complement.
pub open spec fn signed_cell(cell: int) -> int {
    let low = cell % 0x1_0000_0000;
    if low > i32::MAX {
        low - 0x1_0000_0000
    } else {
        low
    }
}

/// Quotient and remainder of `a` by `b`, through `num_traits::Euclid`.
/// For unsigned operands the crate's Euclidean division forwards to the
/// primitive `div_euclid` / `rem_euclid`, which are `/` and `%`; a zero
/// divisor panics, so it is ruled out.
#[verifier::external_body]
fn div_rem_euclid_u32(a: u32, b: u32) -> (r: (u32, u32))
    requires
        b > 0,
    ensures
        r.0 == a / b,
        r.1 == a % b,
{
    Euclid::div_rem_euclid(&a, &b)
}

/// A cubic grid of `cells_per_row`³ values, one per cell of the world.
pub struct Field<T> {
    data: Vec<T>,
    default_value: T,
    cells_per_row: u32,
}

impl<T> Field<T> {
    /// The grid has an odd number of cells per row, its cell count fits a
    /// `u32`, and it stores exactly one value per cell.
    pub closed spec fn wf(self) -> bool {
        let n = self.cells_per_row as int;
        &&& n % 2 == 1
        &&& n * n * n <= u32::MAX
        &&& self.data@.len() == n * n * n
    }

    /// Number of cells along each edge of the grid.
    pub closed spec fn side(self) -> nat {
        self.cells_per_row as nat
    }

    /// The value that `clear` resets every cell to.
    pub closed spec fn default_spec(self) -> T {
        self.default_value
    }
}

impl<T> View for Field<T> {
    type V = Seq<T>;

    closed spec fn view(&self) -> Seq<T> {
        self.data@
    }
}

proof fn lemma_cube_bounds(n: int)
    requires
        n >= 1,
    ensures
        n <= n * n,
        n * n <= n * n * n,
{
    assert(n <= n * n) by (nonlinear_arith)
        requires
            n >= 1,
    ;
    assert(n * n <= n * n * n) by (nonlinear_arith)
        requires
            n >= 1,
    ;
}

/// Under the base-`n` digits of `index`, taken x first, the cell index is
/// `index` again.
proof fn lemma_digits(n: int, index: int)
    requires
        n >= 1,
        index >= 0,
    ensures
        0 <= index % n < n,
        0 <= (index % (n * n)) / n < n,
        index % (n * n) == n * ((index % (n * n)) / n) + (index % (n * n)) % n,
        (index % (n * n)) % n == index % n,
        cell_index(n, index % n, (index % (n * n)) / n, index / (n * n)) == index,
{
    lemma_cube_bounds(n);
    let s = n * n;
    let r = index % s;
    vstd::arithmetic::div_mod::lemma_fundamental_div_mod(index, s);
    vstd::arithmetic::div_mod::lemma_fundamental_div_mod(r, n);
    vstd::arithmetic::div_mod::lemma_mod_mod(index, n, n);
    assert(0 <= r < s);
    assert(0 <= r / n < n) by {
        vstd::arithmetic::div_mod::lemma_multiply_divide_lt(r, n, n);
    }
    assert(index == s * (index / s) + r);
    assert(r == n * (r / n) + r % n);
    assert(n * n * (index / s) == s * (index / s));
}

/// Coordinates of a cell within the rows of the grid are recovered from its
/// index: the column is the index modulo `n`, the row the remainder modulo
/// `n²` divided by `n`, and the slice the index divided by `n²`.
pub proof fn lemma_cell_index_roundtrip(n: int, x: int, y: int, z: int)
    requires
        n >= 1,
        0 <= x < n,
        0 <= y < n,
        0 <= z,
    ensures
        cell_index(n, x, y, z) % n == x,
        (cell_index(n, x, y, z) % (n * n)) / n == y,
        cell_index(n, x, y, z) / (n * n) == z,
{
    let i = cell_index(n, x, y, z);
    let low = x + n * y;
    assert(0 <= x + n * y < n * n) by (nonlinear_arith)
        requires
            0 <= x < n,
            0 <= y < n,
    ;
    assert(x + n * y + n * n * z == z * (n * n) + (x + n * y)) by (nonlinear_arith);
    vstd::arithmetic::div_mod::lemma_fundamental_div_mod_converse(i, n * n, z, low);
    assert(x + n * y == y * n + x) by (nonlinear_arith);
    vstd::arithmetic::div_mod::lemma_fundamental_div_mod_converse(low, n, y, x);
    assert(x + n * y + n * n * z == (y + n * z) * n + x) by (nonlinear_arith);
    vstd::arithmetic::div_mod::lemma_fundamental_div_mod_converse(i, n, y + n * z, x);
}

/// Every index is the cell index of its own base-`n` digits.
pub proof fn lemma_index_cell_roundtrip(n: int, index: int)
    requires
        n >= 1,
        index >= 0,
    ensures
        cell_index(n, index % n, (index % (n * n)) / n, index / (n * n)) == index,
{
    lemma_digits(n, index);
}

impl<T: Copy> Field<T> {
    /// A grid of `cells_per_row`³ cells, each holding `default_value`.
    /// The grid has a central cell only with an odd number of cells per
    /// row; an even one is refused.
    pub fn new(cells_per_row: u32, default_value: T) -> (field: Self)
        requires
            cells_per_row % 2 == 1,
            cells_per_row * cells_per_row * cells_per_row <= u32::MAX,
        ensures
            field.wf(),
            field.side() == cells_per_row,
            field.default_spec() == default_value,
            field@ == Seq::new(
                (cells_per_row * cells_per_row * cells_per_row) as nat,
                |i: int| default_value,
            ),
    {
        proof {
            lemma_cube_bounds(cells_per_row as int);
        }
        let count: u32 = cells_per_row * cells_per_row * cells_per_row;
        let mut data: Vec<T> = Vec::new();
        let mut i: u32 = 0;
        while i < count
            invariant
                i <= count,
                data@ == Seq::new(i as nat, |j: int| default_value),
            decreases count - i,
        {
            data.push(default_value);
            i = i + 1;
        }
        Field { data, default_value, cells_per_row }
    }

    /// Number of cells in the grid.
    pub fn cell_count(&self) -> (count: usize)
        requires
            self.wf(),
        ensures
            count == self@.len(),
            count == self.side() * self.side() * self.side(),
    {
        self.data.len()
    }

    /// Number of cells along each edge of the grid.
    pub fn cells_per_row(&self) -> (n: u32)
        requires
            self.wf(),
        ensures
            n == self.side(),
            n % 2 == 1,
            n * n * n <= u32::MAX,
            self@.len() == n * n * n,
    {
        self.cells_per_row
    }

    /// Every cell set to `value`.
    pub fn set_field(&mut self, value: T)
        requires
            old(self).wf(),
        ensures
            final(self).wf(),
            final(self).side() == old(self).side(),
            final(self).default_spec() == old(self).default_spec(),
            final(self)@ == Seq::new(old(self)@.len(), |i: int| value),
    {
        let len = self.data.len();
        let mut i: usize = 0;
        while i < len
            invariant
                i <= len,
                len == self.data@.len() == old(self).data@.len(),
                self.cells_per_row == old(self).cells_per_row,
                self.default_value == old(self).default_value,
                forall|j: int| 0 <= j < i ==> self.data@[j] == value,
            decreases len - i,
        {
            self.data.set(i, value);
            i = i + 1;
        }
        assert(self.data@ =~= Seq::new(old(self)@.len(), |i: int| value));
    }

    /// Every cell reset to the field's default value.
    pub fn clear(&mut self)
        requires
            old(self).wf(),
        ensures
            final(self).wf(),
            final(self).side() == old(self).side(),
            final(self).default_spec() == old(self).default_spec(),
            final(self)@ == Seq::new(old(self)@.len(), |i: int| old(self).default_spec()),
    {
        let value = self.default_value;
        self.set_field(value);
    }

    /// The value of the cell at `index`.
    pub fn field_value_from_index(&self, index: usize) -> (value: T)
        requires
            index < self@.len(),
        ensures
            value == self@[index as int],
    {
        self.data[index]
    }

    /// The value of the cell at `index`, or `None` where the grid has no
    /// such cell.
    pub fn field_value_checked(&self, index: usize) -> (value: Option<T>)
        ensures
            value == (if index < self@.len() {
                Some(self@[index as int])
            } else {
                None
            }),
    {
        if index < self.data.len() {
            Some(self.data[index])
        } else {
            None
        }
    }

    /// Folds `value` into the cell at `index` with `combine`; every other cell
    /// keeps its value.
    pub fn add_to_field<F: Fn(T, T) -> T>(&mut self, index: usize, value: T, combine: F)
        requires
            old(self).wf(),
            index < old(self)@.len(),
            call_requires(combine, (old(self)@[index as int], value)),
        ensures
            final(self).wf(),
            final(self).side() == old(self).side(),
            final(self).default_spec() == old(self).default_spec(),
            final(self)@.len() == old(self)@.len(),
            forall|j: int|
                0 <= j < old(self)@.len() && j != index ==> final(self)@[j] == old(self)@[j],
            call_ensures(combine, (old(self)@[index as int], value), final(self)@[index as int]),
    {
        let current = self.data[index];
        let sum = combine(current, value);
        self.data.set(index, sum);
    }

    /// All cells, in index order.
    pub fn data(&self) -> (cells: &Vec<T>)
        ensures
            cells@ == self@,
    {
        &self.data
    }

    /// The column, row and slice of the cell at `index`, as `(x, y, z)`.
    /// Indices past the grid give a slice past its last one.
    pub fn cell_from_index(&self, index: u32) -> (cell: (u32, u32, u32))
        requires
            self.wf(),
        ensures
            cell.0 < self.side(),
            cell.1 < self.side(),
            cell.0 == (index as int) % (self.side() as int),
            cell.1 == (index as int % (self.side() * self.side()) as int) / self.side() as int,
            cell.2 == (index as int) / ((self.side() * self.side()) as int),
            cell_index(self.side() as int, cell.0 as int, cell.1 as int, cell.2 as int)
                == index,
            index < self@.len() ==> cell.2 < self.side(),
    {
        proof {
            lemma_cube_bounds(self.cells_per_row as int);
        }
        let n = self.cells_per_row;
        let slice_size = n * n;
        let (z, remainder) = div_rem_euclid_u32(index, slice_size);
        let (y, x) = div_rem_euclid_u32(remainder, n);
        proof {
            let ni = n as int;
            lemma_digits(ni, index as int);
            if index < self@.len() {
                assert(ni * ni * ni == (ni * ni) * ni) by (nonlinear_arith);
                vstd::arithmetic::div_mod::lemma_multiply_divide_lt(index as int, ni * ni, ni);
            }
        }
        (x, y, z)
    }

    /// The index of the cell at column `x`, row `y` and slice `z`, each
    /// first clamped to the rows of the grid.
    pub fn index_from_cell(&self, x: i64, y: i64, z: i64) -> (index: usize)
        requires
            self.wf(),
        ensures
            index == cell_index(
                self.side() as int,
                clamp_coordinate(self.side() as int, x as int),
                clamp_coordinate(self.side() as int, y as int),
                clamp_coordinate(self.side() as int, z as int),
            ),
            index < self@.len(),
    {
        proof {
            lemma_cube_bounds(self.cells_per_row as int);
        }
        let n = self.cells_per_row;
        let cx = self.clamp_coordinate(x);
        let cy = self.clamp_coordinate(y);
        let cz = self.clamp_coordinate(z);
        proof {
            let ni = n as int;
            assert(cx + cy * ni + cz * ni * ni == cx + ni * cy + ni * ni * cz
                < ni * ni * ni) by (nonlinear_arith)
                requires
                    0 <= cx < ni,
                    0 <= cy < ni,
                    0 <= cz < ni,
            ;
            assert(cy * ni <= ni * ni && cz * ni <= ni * ni) by (nonlinear_arith)
                requires
                    0 <= cy < ni,
                    0 <= cz < ni,
            ;
            assert(cz * ni * ni <= ni * ni * ni) by (nonlinear_arith)
                requires
                    0 <= cz < ni,
            ;
        }
        let index: u32 = cx + cy * n + cz * n * n;
        index as usize
    }

    /// `v` clamped to the rows of the grid.
    fn clamp_coordinate(&self, v: i64) -> (c: u32)
        requires
            self.wf(),
        ensures
            c == clamp_coordinate(self.side() as int, v as int),
            c < self.side(),
    {
        let n = self.cells_per_row;
        if v < 0 {
            0
        } else if v > (n - 1) as i64 {
            n - 1
        } else {
            v as u32
        }
    }

    /// The index of the cell `offset` cells after `cell`, or `None` where
    /// that lies outside the grid. The cell index is taken, as the offset
    /// is, as a signed 32-bit number (`signed_cell`).
    pub fn offset_index(&self, cell: usize, offset: i32) -> (index: Option<usize>)
        requires
            i32::MIN <= signed_cell(cell as int) + offset <= i32::MAX,
        ensures
            index == (if 0 <= signed_cell(cell as int) + offset < self@.len() {
                Some((signed_cell(cell as int) + offset) as usize)
            } else {
                None
            }),
    {
        let low: u64 = (cell as u64) % 0x1_0000_0000;
        let wrapped: i64 = if low > 0x7fff_ffff {
            low as i64 - 0x1_0000_0000
        } else {
            low as i64
        };
        let target: i64 = wrapped + offset as i64;
        if target < 0 {
            None
        } else {
            let target = target as usize;
            if target < self.data.len() {
                Some(target)
            } else {
                None
            }
        }
    }
}

} // verus!
