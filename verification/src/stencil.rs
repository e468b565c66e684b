use vstd::prelude::*;

verus! {

/// Offset, in a grid with `n` cells per row, from a cell to the cell `i`
/// columns, `j` rows and `k` slices away.
pub open spec fn offset_of(n: int, i: int, j: int, k: int) -> int {
    i + n * (j + n * k)
}

/// The cell displacement `(i, j, k)` lies within the ball of radius `r`.
pub open spec fn in_sphere(r: int, i: int, j: int, k: int) -> bool {
    i * i + j * j + k * k <= r * r
}

/// The stencil entry contributed by displacement `(i, j, k)`: its offset
/// where the displacement lies within the ball, nothing otherwise.
pub open spec fn stencil_cell(r: int, n: int, i: int, j: int, k: int) -> Seq<i32> {
    if in_sphere(r, i, j, k) {
        seq![offset_of(n, i, j, k) as i32]
    } else {
        Seq::empty()
    }
}

/// Entries of row `j` of slice `k`, for columns `-r` up to `hi` (exclusive).
pub open spec fn stencil_row(r: int, n: int, j: int, k: int, hi: int) -> Seq<i32>
    decreases hi + r,
{
    if hi <= -r {
        Seq::empty()
    } else {
        stencil_row(r, n, j, k, hi - 1) + stencil_cell(r, n, hi - 1, j, k)
    }
}

/// Entries of slice `k`, for rows `-r` up to `hi` (exclusive).
pub open spec fn stencil_plane(r: int, n: int, k: int, hi: int) -> Seq<i32>
    decreases hi + r,
{
    if hi <= -r {
        Seq::empty()
    } else {
        stencil_plane(r, n, k, hi - 1) + stencil_row(r, n, hi - 1, k, r + 1)
    }
}

/// Entries for slices `-r` up to `hi` (exclusive).
pub open spec fn stencil_cube(r: int, n: int, hi: int) -> Seq<i32>
    decreases hi + r,
{
    if hi <= -r {
        Seq::empty()
    } else {
        stencil_cube(r, n, hi - 1) + stencil_plane(r, n, hi - 1, r + 1)
    }
}

/// The offsets of all cells within `r` cells of a centre cell, in a grid
/// with `n` cells per row: slice by slice, row by row, column by column.
pub open spec fn stencil(r: int, n: int) -> Seq<i32> {
    stencil_cube(r, n, r + 1)
}

/// Every step of computing the offset of displacement `(i, j, k)` in `i32`
/// (`n·k`, `j + n·k`, `n·(j + n·k)` and the offset itself) stays within
/// `-i32::MAX..=i32::MAX`. Over the ball, which holds the opposite of each
/// displacement, this is the same as never leaving the range of `i32`.
pub open spec fn offset_fits(n: int, i: int, j: int, k: int) -> bool {
    &&& -i32::MAX <= n * k <= i32::MAX
    &&& -i32::MAX <= j + n * k <= i32::MAX
    &&& -i32::MAX <= n * (j + n * k) <= i32::MAX
    &&& -i32::MAX <= offset_of(n, i, j, k) <= i32::MAX
}

/// `(i, j, k)` lies in the cube of half-width `r` about the centre cell.
pub open spec fn in_cube(r: int, i: int, j: int, k: int) -> bool {
    &&& -r <= i <= r
    &&& -r <= j <= r
    &&& -r <= k <= r
}

/// Inputs on which building the stencil stays within `i32`: `r²`, the sum
/// of three squares tested for every displacement in the cube, and the
/// offset of every displacement in the ball.
pub open spec fn stencil_fits(r: int, n: int) -> bool {
    &&& r * r <= i32::MAX
    &&& r >= 0 ==> 3 * (r * r) <= i32::MAX
    &&& forall|i: int, j: int, k: int|
        in_cube(r, i, j, k) && in_sphere(r, i, j, k) ==> #[trigger] offset_fits(n, i, j, k)
}

/// The number of cells per row as the stencil is computed, in `i32`: a
/// count past `i32::MAX` wraps to a negative value.
pub open spec fn signed_row_length(grid_size: u32) -> int {
    if grid_size > i32::MAX {
        grid_size - 0x1_0000_0000
    } else {
        grid_size as int
    }
}

proof fn lemma_displacement_bounds(r: int, i: int, j: int, k: int)
    requires
        r >= 0,
        in_cube(r, i, j, k),
    ensures
        0 <= i * i <= r * r,
        0 <= j * j <= r * r,
        0 <= k * k <= r * r,
{
    assert(0 <= i * i <= r * r) by (nonlinear_arith)
        requires
            -r <= i <= r,
    ;
    assert(0 <= j * j <= r * r) by (nonlinear_arith)
        requires
            -r <= j <= r,
    ;
    assert(0 <= k * k <= r * r) by (nonlinear_arith)
        requires
            -r <= k <= r,
    ;
}

/// `x` is the offset of the displacement `(i, j, k)`, which lies in the
/// cube of half-width `r` and within the ball of radius `r`.
pub open spec fn is_stencil_point(r: int, n: int, i: int, j: int, k: int, x: i32) -> bool {
    &&& -r <= i <= r
    &&& -r <= j <= r
    &&& -r <= k <= r
    &&& in_sphere(r, i, j, k)
    &&& x as int == offset_of(n, i, j, k)
}

proof fn lemma_cell_members(r: int, n: int, i: int, j: int, k: int)
    requires
        r >= 0,
        stencil_fits(r, n),
        -r <= i <= r,
        -r <= j <= r,
        -r <= k <= r,
    ensures
        forall|x: i32|
            stencil_cell(r, n, i, j, k).contains(x) <==> is_stencil_point(r, n, i, j, k, x),
{
    if in_sphere(r, i, j, k) {
        assert(offset_fits(n, i, j, k));
    }
    let c = stencil_cell(r, n, i, j, k);
    let v = offset_of(n, i, j, k);
    assert forall|x: i32| c.contains(x) <==> is_stencil_point(r, n, i, j, k, x) by {
        if in_sphere(r, i, j, k) {
            assert(c == seq![v as i32]);
            assert((v as i32) as int == v);
            if c.contains(x) {
                let t = choose|t: int| 0 <= t < c.len() && c[t] == x;
                assert(t == 0);
            }
            if is_stencil_point(r, n, i, j, k, x) {
                assert(c[0] == x);
            }
        } else {
            assert(c.len() == 0);
        }
    }
}

proof fn lemma_row_members(r: int, n: int, j: int, k: int, hi: int)
    requires
        r >= 0,
        stencil_fits(r, n),
        -r <= j <= r,
        -r <= k <= r,
        -r <= hi <= r + 1,
    ensures
        forall|x: i32|
            stencil_row(r, n, j, k, hi).contains(x) <==> exists|i: int|
                i < hi && #[trigger] is_stencil_point(r, n, i, j, k, x),
    decreases hi + r,
{
    broadcast use vstd::seq_lib::group_seq_properties;

    if hi > -r {
        lemma_row_members(r, n, j, k, hi - 1);
        lemma_cell_members(r, n, hi - 1, j, k);
        let prev = stencil_row(r, n, j, k, hi - 1);
        let c = stencil_cell(r, n, hi - 1, j, k);
        assert(stencil_row(r, n, j, k, hi) == prev + c);
        assert forall|x: i32|
            stencil_row(r, n, j, k, hi).contains(x) implies exists|i: int|
                i < hi && #[trigger] is_stencil_point(r, n, i, j, k, x) by {
            if c.contains(x) {
                assert(is_stencil_point(r, n, hi - 1, j, k, x));
            } else {
                assert(prev.contains(x));
            }
        }
        assert forall|x: i32|
            (exists|i: int| i < hi && #[trigger] is_stencil_point(r, n, i, j, k, x)) implies stencil_row(
            r,
            n,
            j,
            k,
            hi,
        ).contains(x) by {
            let i = choose|i: int| i < hi && #[trigger] is_stencil_point(r, n, i, j, k, x);
            if i == hi - 1 {
                assert(c.contains(x));
            } else {
                assert(prev.contains(x));
            }
        }
    }
}

proof fn lemma_plane_members(r: int, n: int, k: int, hi: int)
    requires
        r >= 0,
        stencil_fits(r, n),
        -r <= k <= r,
        -r <= hi <= r + 1,
    ensures
        forall|x: i32|
            stencil_plane(r, n, k, hi).contains(x) <==> exists|i: int, j: int|
                j < hi && #[trigger] is_stencil_point(r, n, i, j, k, x),
    decreases hi + r,
{
    broadcast use vstd::seq_lib::group_seq_properties;

    if hi > -r {
        lemma_plane_members(r, n, k, hi - 1);
        lemma_row_members(r, n, hi - 1, k, r + 1);
        let prev = stencil_plane(r, n, k, hi - 1);
        let c = stencil_row(r, n, hi - 1, k, r + 1);
        assert(stencil_plane(r, n, k, hi) == prev + c);
        assert forall|x: i32|
            stencil_plane(r, n, k, hi).contains(x) implies exists|i: int, j: int|
                j < hi && #[trigger] is_stencil_point(r, n, i, j, k, x) by {
            if c.contains(x) {
                let i = choose|i: int| i < r + 1 && #[trigger] is_stencil_point(r, n, i, hi - 1, k, x);
                assert(is_stencil_point(r, n, i, hi - 1, k, x));
            } else {
                assert(prev.contains(x));
            }
        }
        assert forall|x: i32|
            (exists|i: int, j: int|
                j < hi && #[trigger] is_stencil_point(r, n, i, j, k, x)) implies stencil_plane(
            r,
            n,
            k,
            hi,
        ).contains(x) by {
            let (i, j) = choose|i: int, j: int| j < hi && #[trigger] is_stencil_point(r, n, i, j, k, x);
            if j == hi - 1 {
                assert(is_stencil_point(r, n, i, hi - 1, k, x));
                assert(c.contains(x));
            } else {
                assert(prev.contains(x));
            }
        }
    }
}

proof fn lemma_cube_members(r: int, n: int, hi: int)
    requires
        r >= 0,
        stencil_fits(r, n),
        -r <= hi <= r + 1,
    ensures
        forall|x: i32|
            stencil_cube(r, n, hi).contains(x) <==> exists|i: int, j: int, k: int|
                k < hi && #[trigger] is_stencil_point(r, n, i, j, k, x),
    decreases hi + r,
{
    broadcast use vstd::seq_lib::group_seq_properties;

    if hi > -r {
        lemma_cube_members(r, n, hi - 1);
        lemma_plane_members(r, n, hi - 1, r + 1);
        let prev = stencil_cube(r, n, hi - 1);
        let c = stencil_plane(r, n, hi - 1, r + 1);
        assert(stencil_cube(r, n, hi) == prev + c);
        assert forall|x: i32|
            stencil_cube(r, n, hi).contains(x) implies exists|i: int, j: int, k: int|
                k < hi && #[trigger] is_stencil_point(r, n, i, j, k, x) by {
            if c.contains(x) {
                let (i, j) = choose|i: int, j: int|
                    j < r + 1 && #[trigger] is_stencil_point(r, n, i, j, hi - 1, x);
                assert(is_stencil_point(r, n, i, j, hi - 1, x));
            } else {
                assert(prev.contains(x));
            }
        }
        assert forall|x: i32|
            (exists|i: int, j: int, k: int|
                k < hi && #[trigger] is_stencil_point(r, n, i, j, k, x)) implies stencil_cube(
            r,
            n,
            hi,
        ).contains(x) by {
            let (i, j, k) = choose|i: int, j: int, k: int|
                k < hi && #[trigger] is_stencil_point(r, n, i, j, k, x);
            if k == hi - 1 {
                assert(is_stencil_point(r, n, i, j, hi - 1, x));
                assert(c.contains(x));
            } else {
                assert(prev.contains(x));
            }
        }
    }
}

/// The stencil holds exactly the offsets of the displacements that lie
/// within the ball of radius `r` about the centre cell.
pub proof fn lemma_stencil_members(r: int, n: int)
    requires
        stencil_fits(r, n),
    ensures
        forall|x: i32|
            stencil(r, n).contains(x) <==> exists|i: int, j: int, k: int|
                #[trigger] is_stencil_point(r, n, i, j, k, x),
{
    broadcast use vstd::seq_lib::group_seq_properties;

    if r >= 0 {
        lemma_cube_members(r, n, r + 1);
        assert forall|x: i32|
            (exists|i: int, j: int, k: int| #[trigger] is_stencil_point(r, n, i, j, k, x))
                implies stencil(r, n).contains(x) by {
            let (i, j, k) = choose|i: int, j: int, k: int|
                #[trigger] is_stencil_point(r, n, i, j, k, x);
            assert(k < r + 1 && is_stencil_point(r, n, i, j, k, x));
        }
    } else {
        assert(stencil(r, n) == Seq::<i32>::empty());
    }
}

/// The stencil is symmetric about the centre cell: with every offset it
/// also holds the opposite one.
pub proof fn lemma_stencil_symmetric(r: int, n: int, x: i32)
    requires
        stencil_fits(r, n),
        stencil(r, n).contains(x),
    ensures
        -i32::MAX <= x <= i32::MAX,
        stencil(r, n).contains((-x) as i32),
{
    lemma_stencil_members(r, n);
    let (i, j, k) = choose|i: int, j: int, k: int| #[trigger] is_stencil_point(r, n, i, j, k, x);
    assert(offset_fits(n, i, j, k));
    assert((-i) * (-i) == i * i && (-j) * (-j) == j * j && (-k) * (-k) == k * k) by (nonlinear_arith);
    assert(offset_of(n, -i, -j, -k) == -offset_of(n, i, j, k)) by (nonlinear_arith);
    assert(is_stencil_point(r, n, -i, -j, -k, (-x) as i32));
}

/// A stencil of non-negative radius holds the centre cell itself.
pub proof fn lemma_stencil_has_centre(r: int, n: int)
    requires
        r >= 0,
        stencil_fits(r, n),
    ensures
        stencil(r, n).contains(0i32),
{
    lemma_stencil_members(r, n);
    assert(0 <= r * r) by (nonlinear_arith);
    assert(offset_of(n, 0, 0, 0) == 0) by (nonlinear_arith);
    assert(is_stencil_point(r, n, 0, 0, 0, 0i32));
}

/// The entries of `s` strictly increase.
pub open spec fn strictly_increasing(s: Seq<i32>) -> bool {
    forall|a: int, b: int| 0 <= a < b < s.len() ==> s[a] < s[b]
}

proof fn lemma_concat_increasing(left: Seq<i32>, right: Seq<i32>)
    requires
        strictly_increasing(left),
        strictly_increasing(right),
        forall|x: i32, y: i32| left.contains(x) && right.contains(y) ==> x < y,
    ensures
        strictly_increasing(left + right),
{
    let s = left + right;
    assert forall|a: int, b: int| 0 <= a < b < s.len() implies s[a] < s[b] by {
        if b < left.len() {
            assert(s[a] == left[a] && s[b] == left[b]);
        } else if a >= left.len() {
            assert(s[a] == right[a - left.len()] && s[b] == right[b - left.len()]);
        } else {
            assert(s[a] == left[a] && left.contains(left[a]));
            assert(s[b] == right[b - left.len()] && right.contains(right[b - left.len()]));
        }
    }
}

proof fn lemma_row_increasing(r: int, n: int, j: int, k: int, hi: int)
    requires
        r >= 0,
        stencil_fits(r, n),
        -r <= j <= r,
        -r <= k <= r,
        -r <= hi <= r + 1,
    ensures
        strictly_increasing(stencil_row(r, n, j, k, hi)),
    decreases hi + r,
{
    if hi > -r {
        lemma_row_increasing(r, n, j, k, hi - 1);
        lemma_row_members(r, n, j, k, hi - 1);
        lemma_cell_members(r, n, hi - 1, j, k);
        let prev = stencil_row(r, n, j, k, hi - 1);
        let c = stencil_cell(r, n, hi - 1, j, k);
        assert forall|x: i32, y: i32| prev.contains(x) && c.contains(y) implies x < y by {
            let i = choose|i: int| i < hi - 1 && #[trigger] is_stencil_point(r, n, i, j, k, x);
            assert(is_stencil_point(r, n, hi - 1, j, k, y));
        }
        assert(strictly_increasing(c));
        lemma_concat_increasing(prev, c);
    }
}

proof fn lemma_plane_increasing(r: int, n: int, k: int, hi: int)
    requires
        r >= 0,
        n > 2 * r,
        stencil_fits(r, n),
        -r <= k <= r,
        -r <= hi <= r + 1,
    ensures
        strictly_increasing(stencil_plane(r, n, k, hi)),
    decreases hi + r,
{
    if hi > -r {
        lemma_plane_increasing(r, n, k, hi - 1);
        lemma_plane_members(r, n, k, hi - 1);
        lemma_row_members(r, n, hi - 1, k, r + 1);
        lemma_row_increasing(r, n, hi - 1, k, r + 1);
        let prev = stencil_plane(r, n, k, hi - 1);
        let c = stencil_row(r, n, hi - 1, k, r + 1);
        assert forall|x: i32, y: i32| prev.contains(x) && c.contains(y) implies x < y by {
            let (i, j) = choose|i: int, j: int|
                j < hi - 1 && #[trigger] is_stencil_point(r, n, i, j, k, x);
            let i2 = choose|i2: int| i2 < r + 1 && #[trigger] is_stencil_point(r, n, i2, hi - 1, k, y);
            let d = hi - 1 - j;
            assert(offset_of(n, i2, hi - 1, k) - offset_of(n, i, j, k) == (i2 - i) + n * d)
                by (nonlinear_arith)
                requires
                    d == hi - 1 - j,
            ;
            assert(n * d >= n) by (nonlinear_arith)
                requires
                    d >= 1,
                    n >= 0,
            ;
        }
        lemma_concat_increasing(prev, c);
    }
}

proof fn lemma_cube_increasing(r: int, n: int, hi: int)
    requires
        r >= 0,
        n > 2 * r,
        stencil_fits(r, n),
        -r <= hi <= r + 1,
    ensures
        strictly_increasing(stencil_cube(r, n, hi)),
    decreases hi + r,
{
    if hi > -r {
        lemma_cube_increasing(r, n, hi - 1);
        lemma_cube_members(r, n, hi - 1);
        lemma_plane_members(r, n, hi - 1, r + 1);
        lemma_plane_increasing(r, n, hi - 1, r + 1);
        let prev = stencil_cube(r, n, hi - 1);
        let c = stencil_plane(r, n, hi - 1, r + 1);
        assert forall|x: i32, y: i32| prev.contains(x) && c.contains(y) implies x < y by {
            let (i, j, k) = choose|i: int, j: int, k: int|
                k < hi - 1 && #[trigger] is_stencil_point(r, n, i, j, k, x);
            let (i2, j2) = choose|i2: int, j2: int|
                j2 < r + 1 && #[trigger] is_stencil_point(r, n, i2, j2, hi - 1, y);
            let d = hi - 1 - k;
            assert(offset_of(n, i2, j2, hi - 1) - offset_of(n, i, j, k) == (i2 - i) + n * (j2 - j)
                + n * n * d) by (nonlinear_arith)
                requires
                    d == hi - 1 - k,
            ;
            assert((i2 - i) + n * (j2 - j) + n * n * d > 0) by (nonlinear_arith)
                requires
                    d >= 1,
                    n > 2 * r,
                    r >= 0,
                    -2 * r <= i2 - i,
                    -2 * r <= j2 - j,
            ;
        }
        lemma_concat_increasing(prev, c);
    }
}

/// In a grid more than twice as wide as the radius, the stencil's offsets
/// strictly increase, so no cell is counted twice.
pub proof fn lemma_stencil_increasing(r: int, n: int)
    requires
        n > 2 * r,
        stencil_fits(r, n),
    ensures
        strictly_increasing(stencil(r, n)),
        stencil(r, n).no_duplicates(),
{
    if r >= 0 {
        lemma_cube_increasing(r, n, r + 1);
    } else {
        assert(stencil(r, n) == Seq::<i32>::empty());
    }
    let s = stencil(r, n);
    assert forall|a: int, b: int| 0 <= a < s.len() && 0 <= b < s.len() && a != b implies s[a]
        != s[b] by {
        if a < b {
            assert(s[a] < s[b]);
        } else {
            assert(s[b] < s[a]);
        }
    }
}

/// Offsets, in a grid with `grid_size` cells per row, of every cell whose
/// displacement `(i, j, k)` from a centre cell has `i² + j² + k² ≤ r²`,
/// where `r` is `sight_range_cells`; slices outermost, columns innermost.
pub fn grid_average_offsets(sight_range_cells: i32, grid_size: u32) -> (offsets: Vec<i32>)
    requires
        stencil_fits(sight_range_cells as int, signed_row_length(grid_size)),
    ensures
        offsets@ == stencil(sight_range_cells as int, signed_row_length(grid_size)),
{
    let ghost rg: int = sight_range_cells as int;
    let ghost ng: int = signed_row_length(grid_size);
    let r: i64 = sight_range_cells as i64;
    let n: i64 = if grid_size > i32::MAX as u32 {
        grid_size as i64 - 0x1_0000_0000
    } else {
        grid_size as i64
    };
    proof {
        assert(r * r == rg * rg);
        assert(0 <= rg * rg) by (nonlinear_arith);
    }
    let r2: i64 = r * r;
    let mut offsets: Vec<i32> = Vec::new();
    let mut k: i64 = -r;
    while k <= r
        invariant
            rg == r,
            ng == n,
            i32::MIN <= n <= i32::MAX,
            r2 == r * r,
            i32::MIN <= r <= i32::MAX,
            stencil_fits(rg, ng),
            -r <= k,
            r >= 0 ==> k <= r + 1,
            r < 0 ==> k == -r,
            offsets@ == stencil_cube(rg, ng, k as int),
        decreases r + 1 - k,
    {
        let mut j: i64 = -r;
        while j <= r
            invariant
                rg == r,
                ng == n,
                i32::MIN <= n <= i32::MAX,
                r2 == r * r,
                i32::MIN <= r <= i32::MAX,
                stencil_fits(rg, ng),
                r >= 0,
                -r <= k <= r,
                -r <= j <= r + 1,
                offsets@ == stencil_cube(rg, ng, k as int) + stencil_plane(
                    rg,
                    ng,
                    k as int,
                    j as int,
                ),
            decreases r + 1 - j,
        {
            let mut i: i64 = -r;
            while i <= r
                invariant
                    rg == r,
                    ng == n,
                    i32::MIN <= n <= i32::MAX,
                    r2 == r * r,
                    i32::MIN <= r <= i32::MAX,
                    stencil_fits(rg, ng),
                    r >= 0,
                    -r <= k <= r,
                    -r <= j <= r,
                    -r <= i <= r + 1,
                    offsets@ == stencil_cube(rg, ng, k as int) + stencil_plane(
                        rg,
                        ng,
                        k as int,
                        j as int,
                    ) + stencil_row(rg, ng, j as int, k as int, i as int),
                decreases r + 1 - i,
            {
                proof {
                    lemma_displacement_bounds(rg, i as int, j as int, k as int);
                    assert(i * i <= rg * rg);
                    assert(j * j <= rg * rg);
                    assert(k * k <= rg * rg);
                }
                let ghost before = offsets@;
                if i * i + j * j + k * k <= r2 {
                    proof {
                        assert(offset_fits(ng, i as int, j as int, k as int));
                    }
                    let offset: i64 = i + n * (j + n * k);
                    offsets.push(offset as i32);
                }
                proof {
                    let a = stencil_cube(rg, ng, k as int);
                    let b = stencil_plane(rg, ng, k as int, j as int);
                    let c = stencil_row(rg, ng, j as int, k as int, i as int);
                    let d = stencil_cell(rg, ng, i as int, j as int, k as int);
                    assert(stencil_row(rg, ng, j as int, k as int, i + 1) == c + d);
                    assert(offsets@ =~= a + b + (c + d));
                }
                i = i + 1;
            }
            proof {
                let a = stencil_cube(rg, ng, k as int);
                let b = stencil_plane(rg, ng, k as int, j as int);
                let c = stencil_row(rg, ng, j as int, k as int, r + 1);
                assert(stencil_plane(rg, ng, k as int, j + 1) == b + c);
                assert(offsets@ =~= a + (b + c));
            }
            j = j + 1;
        }
        proof {
            let a = stencil_cube(rg, ng, k as int);
            let b = stencil_plane(rg, ng, k as int, r + 1);
            assert(stencil_cube(rg, ng, k + 1) == a + b);
        }
        k = k + 1;
    }
    proof {
        if rg < 0 {
            assert(stencil_cube(rg, ng, k as int) == Seq::<i32>::empty());
            assert(stencil_cube(rg, ng, rg + 1) == Seq::<i32>::empty());
        } else {
            assert(k == rg + 1);
        }
    }
    offsets
}

/// Every displacement of the cube up to slice `ck`, row `cj` and column
/// `ci` (exclusive), slices outermost, comes before `(ci, cj, ck)`.
pub open spec fn visited(i: int, j: int, k: int, ci: int, cj: int, ck: int) -> bool {
    ||| k < ck
    ||| k == ck && j < cj
    ||| k == ck && j == cj && i < ci
}

/// Whether every step of computing the offset of `(i, j, k)` stays within
/// `-i32::MAX..=i32::MAX`, for `|i|, |j|, |k| <= 46341` and `n` in `i32`.
fn offset_fits_check(n: i64, i: i64, j: i64, k: i64) -> (fits: bool)
    requires
        i32::MIN <= n <= i32::MAX,
        -46341 <= i <= 46341,
        -46341 <= j <= 46341,
        -46341 <= k <= 46341,
    ensures
        fits == offset_fits(n as int, i as int, j as int, k as int),
{
    let max: i64 = 0x7fff_ffff;
    assert(-0x8000_0000 * 46341 <= n * k <= 0x8000_0000 * 46341) by (nonlinear_arith)
        requires
            -0x8000_0000 <= n <= 0x8000_0000,
            -46341 <= k <= 46341,
    ;
    let a: i64 = n * k;
    if a < -max || a > max {
        return false;
    }
    let b: i64 = j + a;
    if b < -max || b > max {
        return false;
    }
    assert(-0x8000_0000 * 0x8000_0000 <= n * b <= 0x8000_0000 * 0x8000_0000)
        by (nonlinear_arith)
        requires
            -0x8000_0000 <= n <= 0x8000_0000,
            -0x8000_0000 <= b <= 0x8000_0000,
    ;
    let c: i64 = n * b;
    if c < -max || c > max {
        return false;
    }
    let d: i64 = i + c;
    -max <= d && d <= max
}

/// The stencil of `grid_average_offsets`, or `None` exactly where building
/// it would overflow `i32`.
pub fn checked_grid_average_offsets(sight_range_cells: i32, grid_size: u32) -> (offsets: Option<
    Vec<i32>,
>)
    ensures
        offsets is None <==> !stencil_fits(sight_range_cells as int, signed_row_length(grid_size)),
        offsets matches Some(v) ==> v@ == stencil(
            sight_range_cells as int,
            signed_row_length(grid_size),
        ),
{
    let ghost rg: int = sight_range_cells as int;
    let ghost ng: int = signed_row_length(grid_size);
    let r: i64 = sight_range_cells as i64;
    let n: i64 = if grid_size > i32::MAX as u32 {
        grid_size as i64 - 0x1_0000_0000
    } else {
        grid_size as i64
    };
    assert(0 <= r * r <= 0x8000_0000 * 0x8000_0000) by (nonlinear_arith)
        requires
            -0x8000_0000 <= r <= 0x8000_0000,
    ;
    let r2: i64 = r * r;
    if r2 > 0x7fff_ffff {
        return None;
    }
    if r >= 0 && 3 * r2 > 0x7fff_ffff {
        return None;
    }
    if r >= 0 {
        assert(r <= 46341) by (nonlinear_arith)
            requires
                r >= 0,
                r * r <= 0x7fff_ffff,
        ;
        let mut k: i64 = -r;
        while k <= r
            invariant
                rg == r,
                rg == sight_range_cells as int,
                ng == signed_row_length(grid_size),
                ng == n,
                i32::MIN <= n <= i32::MAX,
                0 <= r <= 46341,
                r2 == r * r,
                r2 <= 0x7fff_ffff,
                -r <= k <= r + 1,
                forall|i: int, j: int, k2: int|
                    in_cube(rg, i, j, k2) && in_sphere(rg, i, j, k2) && visited(
                        i,
                        j,
                        k2,
                        -rg,
                        -rg,
                        k as int,
                    ) ==> #[trigger] offset_fits(ng, i, j, k2),
            decreases r + 1 - k,
        {
            let mut j: i64 = -r;
            while j <= r
                invariant
                    rg == r,
                rg == sight_range_cells as int,
                ng == signed_row_length(grid_size),
                    ng == n,
                    i32::MIN <= n <= i32::MAX,
                    0 <= r <= 46341,
                    r2 == r * r,
                r2 <= 0x7fff_ffff,
                    -r <= k <= r,
                    -r <= j <= r + 1,
                    forall|i: int, j2: int, k2: int|
                        in_cube(rg, i, j2, k2) && in_sphere(rg, i, j2, k2) && visited(
                            i,
                            j2,
                            k2,
                            -rg,
                            j as int,
                            k as int,
                        ) ==> #[trigger] offset_fits(ng, i, j2, k2),
                decreases r + 1 - j,
            {
                let mut i: i64 = -r;
                while i <= r
                    invariant
                        rg == r,
                rg == sight_range_cells as int,
                ng == signed_row_length(grid_size),
                        ng == n,
                        i32::MIN <= n <= i32::MAX,
                        0 <= r <= 46341,
                        r2 == r * r,
                r2 <= 0x7fff_ffff,
                        -r <= k <= r,
                        -r <= j <= r,
                        -r <= i <= r + 1,
                        forall|i2: int, j2: int, k2: int|
                            in_cube(rg, i2, j2, k2) && in_sphere(rg, i2, j2, k2) && visited(
                                i2,
                                j2,
                                k2,
                                i as int,
                                j as int,
                                k as int,
                            ) ==> #[trigger] offset_fits(ng, i2, j2, k2),
                    decreases r + 1 - i,
                {
                    proof {
                        lemma_displacement_bounds(rg, i as int, j as int, k as int);
                        assert(i * i <= rg * rg);
                        assert(j * j <= rg * rg);
                        assert(k * k <= rg * rg);
                    }
                    if i * i + j * j + k * k <= r2 {
                        if !offset_fits_check(n, i, j, k) {
                            proof {
                                assert(in_cube(rg, i as int, j as int, k as int));
                                assert(!offset_fits(ng, i as int, j as int, k as int));
                                assert(in_sphere(rg, i as int, j as int, k as int));
                                assert(!stencil_fits(rg, ng)) by {
                                    if stencil_fits(rg, ng) {
                                        assert(offset_fits(ng, i as int, j as int, k as int));
                                    }
                                }
                            }
                            return None;
                        }
                    }
                    i = i + 1;
                }
                j = j + 1;
            }
            k = k + 1;
        }
        assert forall|i: int, j: int, k2: int|
            in_cube(rg, i, j, k2) && in_sphere(rg, i, j, k2) implies #[trigger] offset_fits(
            ng,
            i,
            j,
            k2,
        ) by {
            assert(visited(i, j, k2, -rg, -rg, k as int));
        }
    }
    assert(stencil_fits(rg, ng));
    Some(grid_average_offsets(sight_range_cells, grid_size))
}

} // verus!
