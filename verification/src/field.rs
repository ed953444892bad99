//! Multi-dimensional fields and their axis-separable transforms.
//!
//! A 2D or 3D transform is a composition of 1D transforms along each axis:
//! transform every row, transpose to bring the next axis into row
//! position, transform again, and transpose back.  Every transpose is a
//! pure index permutation and a self-inverse, which is what makes the
//! forward and the inverse field transforms exact inverses of each other
//! whenever the 1D kernels are.

use vstd::prelude::*;
use crate::algebra::ScalarSpace;
use crate::fft::{
    check_power_of_two, fft1d_in_place, fft_spec, ifft_spec, is_power_of_two, lemma_fft_spec_len,
    TransformError,
};
use crate::vector::Vector;

verus! {

/// A field that can be moved to and from the frequency domain in place.
///
/// `fft` and `ifft` succeed exactly on fields of valid size; on any other
/// field they return `InvalidLength` and leave every element untouched.
pub trait Field: Sized {
    /// Whether this field's size is one the transforms accept.
    spec fn valid_size(&self) -> bool;

    /// The forward-transform relation: `post` is the spectrum of `pre`.
    spec fn is_fft_of(pre: Self, post: Self) -> bool;

    /// The inverse-transform relation.
    spec fn is_ifft_of(pre: Self, post: Self) -> bool;

    /// The forward transform, in place.
    fn fft(&mut self) -> (r: Result<(), TransformError>)
        ensures
            r is Ok <==> old(self).valid_size(),
            old(self).valid_size() ==> Self::is_fft_of(*old(self), *final(self)),
            !old(self).valid_size() ==> *final(self) == *old(self) && r == Result::<
                (),
                TransformError,
            >::Err(TransformError::InvalidLength),
    ;

    /// The inverse transform, in place.
    fn ifft(&mut self) -> (r: Result<(), TransformError>)
        ensures
            r is Ok <==> old(self).valid_size(),
            old(self).valid_size() ==> Self::is_ifft_of(*old(self), *final(self)),
            !old(self).valid_size() ==> *final(self) == *old(self) && r == Result::<
                (),
                TransformError,
            >::Err(TransformError::InvalidLength),
    ;
}

/// A line of scalars.
pub type Field1D<S> = Vector<S>;

impl<S: ScalarSpace> Field for Vector<S> {
    open spec fn valid_size(&self) -> bool {
        is_power_of_two(self@.len())
    }

    open spec fn is_fft_of(pre: Self, post: Self) -> bool {
        post@ == fft_spec(pre@)
    }

    open spec fn is_ifft_of(pre: Self, post: Self) -> bool {
        post@ == ifft_spec(pre@)
    }

    fn fft(&mut self) -> (r: Result<(), TransformError>) {
        let n = self.size();
        if !check_power_of_two(n) {
            return Err(TransformError::InvalidLength);
        }
        fft1d_in_place(self.data_mut(), false);
        Ok(())
    }

    fn ifft(&mut self) -> (r: Result<(), TransformError>) {
        let n = self.size();
        if !check_power_of_two(n) {
            return Err(TransformError::InvalidLength);
        }
        fft1d_in_place(self.data_mut(), true);
        Ok(())
    }
}

/// The views of a buffer of rows.
pub open spec fn rows_view<S>(m: Seq<Vec<S>>) -> Seq<Seq<S>> {
    m.map_values(|r: Vec<S>| r@)
}

/// Whether a grid is square: every row as long as the column of rows.
pub open spec fn is_square<S>(m: Seq<Seq<S>>) -> bool {
    forall|i: int| 0 <= i < m.len() ==> (#[trigger] m[i]).len() == m.len()
}

/// The transpose of a square grid: element `(i, j)` moves to `(j, i)`.
pub open spec fn transpose_spec<S>(m: Seq<Seq<S>>) -> Seq<Seq<S>> {
    Seq::new(m.len(), |i: int| Seq::new(m.len(), |j: int| m[j][i]))
}

/// Every row replaced by its 1D transform.
pub open spec fn rows_fft<S: ScalarSpace>(m: Seq<Seq<S>>, inverse: bool) -> Seq<Seq<S>> {
    Seq::new(
        m.len(),
        |i: int|
            if inverse {
                ifft_spec(m[i])
            } else {
                fft_spec(m[i])
            },
    )
}

/// The separable 2D transform: rows, transpose, rows again (now the
/// original columns), transpose back.
pub open spec fn fft2d_spec<S: ScalarSpace>(m: Seq<Seq<S>>, inverse: bool) -> Seq<Seq<S>> {
    transpose_spec(rows_fft(transpose_spec(rows_fft(m, inverse)), inverse))
}

/// Transposing twice restores every element of a square grid.
pub proof fn lemma_transpose_involution<S>(m: Seq<Seq<S>>)
    requires
        is_square(m),
    ensures
        transpose_spec(transpose_spec(m)) =~~= m,
{
}

/// Transforms every row of a square grid in place.
fn rows_pass<S: ScalarSpace>(m: &mut Vec<Vec<S>>, inverse: bool)
    requires
        is_square(rows_view(old(m)@)),
        is_power_of_two(old(m)@.len()),
    ensures
        rows_view(final(m)@) == rows_fft(rows_view(old(m)@), inverse),
        is_square(rows_view(final(m)@)),
        final(m)@.len() == old(m)@.len(),
{
    let n = m.len();
    let ghost v0 = rows_view(m@);
    let mut i: usize = 0;
    while i < n
        invariant
            m@.len() == n,
            v0.len() == n,
            v0 == rows_view(old(m)@),
            is_square(v0),
            is_power_of_two(n as nat),
            i <= n,
            forall|r: int| 0 <= r < i ==> #[trigger] m@[r]@ == (if inverse {
                ifft_spec(v0[r])
            } else {
                fft_spec(v0[r])
            }),
            forall|r: int| i <= r < n ==> #[trigger] m@[r]@ == v0[r],
        decreases n - i,
    {
        proof {
            assert(m@[i as int]@ == v0[i as int]);
        }
        fft1d_in_place(&mut m[i], inverse);
        proof {
            lemma_fft_spec_len(v0[i as int]);
        }
        i = i + 1;
    }
    proof {
        assert forall|r: int| 0 <= r < n implies (#[trigger] rows_fft(v0, inverse)[r]).len()
            == n by {
            lemma_fft_spec_len(v0[r]);
        }
        assert(rows_view(m@) =~~= rows_fft(v0, inverse));
    }
}

/// Transposes a square grid in place; each pair above the diagonal is
/// swapped with its mirror exactly once.
fn transpose_in_place<S: Copy>(m: &mut Vec<Vec<S>>)
    requires
        is_square(rows_view(old(m)@)),
    ensures
        rows_view(final(m)@) == transpose_spec(rows_view(old(m)@)),
        is_square(rows_view(final(m)@)),
        final(m)@.len() == old(m)@.len(),
{
    let n = m.len();
    let ghost v0 = rows_view(m@);
    proof {
        assert forall|a: int| 0 <= a < n implies (#[trigger] m@[a]@).len() == n by {
            assert(rows_view(m@)[a] == m@[a]@);
        }
        assert forall|a: int, b: int| 0 <= a < n && 0 <= b < n implies #[trigger] m@[a]@[b]
            == v0[a][b] by {
            assert(rows_view(m@)[a] == m@[a]@);
        }
    }
    let mut x: usize = 0;
    while x < n
        invariant
            m@.len() == n,
            v0.len() == n,
            v0 == rows_view(old(m)@),
            is_square(v0),
            x <= n,
            forall|a: int| 0 <= a < n ==> (#[trigger] m@[a]@).len() == n,
            forall|a: int, b: int|
                0 <= a < n && 0 <= b < n ==> #[trigger] m@[a]@[b] == (if (a < b && a < x) || (b < a
                    && b < x) {
                    v0[b][a]
                } else {
                    v0[a][b]
                }),
        decreases n - x,
    {
        let mut y = x + 1;
        while y < n
            invariant
                m@.len() == n,
                v0.len() == n,
                is_square(v0),
                x < n,
                x + 1 <= y <= n,
                forall|a: int| 0 <= a < n ==> (#[trigger] m@[a]@).len() == n,
                forall|a: int, b: int|
                    0 <= a < n && 0 <= b < n ==> #[trigger] m@[a]@[b] == (if (a < b && (a < x || (a
                        == x && b < y))) || (b < a && (b < x || (b == x && a < y))) {
                        v0[b][a]
                    } else {
                        v0[a][b]
                    }),
            decreases n - y,
        {
            let tmp = m[x][y];
            let oth = m[y][x];
            m[x][y] = oth;
            m[y][x] = tmp;
            y = y + 1;
        }
        x = x + 1;
    }
    proof {
        assert(rows_view(m@) =~~= transpose_spec(v0));
    }
}

/// The separable 2D transform on a raw grid of rows.
pub(crate) fn fft2d_in_place<S: ScalarSpace>(m: &mut Vec<Vec<S>>, inverse: bool)
    requires
        is_square(rows_view(old(m)@)),
        is_power_of_two(old(m)@.len()),
    ensures
        rows_view(final(m)@) == fft2d_spec(rows_view(old(m)@), inverse),
        is_square(rows_view(final(m)@)),
        final(m)@.len() == old(m)@.len(),
{
    rows_pass(m, inverse);
    transpose_in_place(m);
    rows_pass(m, inverse);
    transpose_in_place(m);
}

/// Checks that a grid of rows is square with a power-of-two side.
fn check_square<S>(m: &Vec<Vec<S>>) -> (r: bool)
    ensures
        r == (is_square(rows_view(m@)) && is_power_of_two(m@.len())),
{
    let n = m.len();
    if !check_power_of_two(n) {
        return false;
    }
    let mut i: usize = 0;
    while i < n
        invariant
            m@.len() == n,
            i <= n,
            forall|r: int| 0 <= r < i ==> (#[trigger] rows_view(m@)[r]).len() == n,
        decreases n - i,
    {
        if m[i].len() != n {
            proof {
                assert(rows_view(m@)[i as int] == m@[i as int]@);
            }
            return false;
        }
        proof {
            assert(rows_view(m@)[i as int] == m@[i as int]@);
        }
        i = i + 1;
    }
    true
}

/// An N-by-N grid of scalars.
pub struct Field2D<S> {
    rows: Vec<Vec<S>>,
}

impl<S> View for Field2D<S> {
    type V = Seq<Seq<S>>;

    closed spec fn view(&self) -> Seq<Seq<S>> {
        rows_view(self.rows@)
    }
}

impl<S: ScalarSpace> Field2D<S> {
    /// An `n`-by-`n` grid of zeros.
    pub fn zero(n: usize) -> (r: Self)
        ensures
            r@.len() == n,
            is_square(r@),
            forall|i: int, j: int| 0 <= i < n && 0 <= j < n ==> r@[i][j] == S::szero(),
    {
        let mut rows: Vec<Vec<S>> = Vec::new();
        let mut i: usize = 0;
        while i < n
            invariant
                i <= n,
                rows@.len() == i,
                forall|r: int| 0 <= r < i ==> (#[trigger] rows@[r]@).len() == n,
                forall|r: int, c: int|
                    0 <= r < i && 0 <= c < n ==> #[trigger] rows@[r]@[c] == S::szero(),
            decreases n - i,
        {
            let row = Vector::<S>::zero(n);
            rows.push(row.get_data());
            i = i + 1;
        }
        Field2D { rows }
    }

    /// The side length.
    pub fn size(&self) -> (r: usize)
        ensures
            r == self@.len(),
    {
        self.rows.len()
    }

    /// The element at `(x, y)`.
    pub fn get(&self, x: usize, y: usize) -> (r: S)
        requires
            x < self@.len(),
            y < self@[x as int].len(),
        ensures
            r == self@[x as int][y as int],
    {
        self.rows[x][y]
    }

    /// Replaces the element at `(x, y)`.
    pub fn set(&mut self, x: usize, y: usize, value: S)
        requires
            x < old(self)@.len(),
            y < old(self)@[x as int].len(),
        ensures
            final(self)@ == old(self)@.update(x as int, old(self)@[x as int].update(y as int, value)),
    {
        self.rows[x][y] = value;
        proof {
            assert(self@ =~~= old(self)@.update(
                x as int,
                old(self)@[x as int].update(y as int, value),
            ));
        }
    }
}

impl<S: ScalarSpace> Field for Field2D<S> {
    open spec fn valid_size(&self) -> bool {
        is_square(self@) && is_power_of_two(self@.len())
    }

    open spec fn is_fft_of(pre: Self, post: Self) -> bool {
        post@ == fft2d_spec(pre@, false)
    }

    open spec fn is_ifft_of(pre: Self, post: Self) -> bool {
        post@ == fft2d_spec(pre@, true)
    }

    fn fft(&mut self) -> (r: Result<(), TransformError>) {
        if !check_square(&self.rows) {
            return Err(TransformError::InvalidLength);
        }
        fft2d_in_place(&mut self.rows, false);
        Ok(())
    }

    fn ifft(&mut self) -> (r: Result<(), TransformError>) {
        if !check_square(&self.rows) {
            return Err(TransformError::InvalidLength);
        }
        fft2d_in_place(&mut self.rows, true);
        Ok(())
    }
}

/// The views of a buffer of planes.
pub open spec fn grid_view<S>(p: Seq<Vec<Vec<S>>>) -> Seq<Seq<Seq<S>>> {
    p.map_values(|m: Vec<Vec<S>>| rows_view(m@))
}

/// Whether a volume is a cube: every plane square, with the volume's side.
pub open spec fn is_cube<S>(v: Seq<Seq<Seq<S>>>) -> bool {
    forall|i: int| 0 <= i < v.len() ==> is_square(#[trigger] v[i]) && v[i].len() == v.len()
}

/// The x-z transpose of a cube: element `(x, y, z)` moves to `(z, y, x)`,
/// the y axis untouched.
pub open spec fn transpose_xz_spec<S>(v: Seq<Seq<Seq<S>>>) -> Seq<Seq<Seq<S>>> {
    Seq::new(
        v.len(),
        |x: int| Seq::new(v.len(), |y: int| Seq::new(v.len(), |z: int| v[z][y][x])),
    )
}

/// Every plane replaced by its separable 2D transform.
pub open spec fn planes_fft<S: ScalarSpace>(v: Seq<Seq<Seq<S>>>, inverse: bool) -> Seq<
    Seq<Seq<S>>,
> {
    Seq::new(v.len(), |x: int| fft2d_spec(v[x], inverse))
}

/// Every row of every plane replaced by its 1D transform.
pub open spec fn deep_rows_fft<S: ScalarSpace>(v: Seq<Seq<Seq<S>>>, inverse: bool) -> Seq<
    Seq<Seq<S>>,
> {
    Seq::new(v.len(), |x: int| rows_fft(v[x], inverse))
}

/// The separable 3D transform: a 2D transform of every plane covers two
/// axes, an x-z transpose brings the third into row position, a 1D
/// transform of every row covers it, and the transpose is undone.
pub open spec fn fft3d_spec<S: ScalarSpace>(v: Seq<Seq<Seq<S>>>, inverse: bool) -> Seq<
    Seq<Seq<S>>,
> {
    transpose_xz_spec(deep_rows_fft(transpose_xz_spec(planes_fft(v, inverse)), inverse))
}

/// Exchanging x and z twice restores every element of a cube.
pub proof fn lemma_transpose_xz_involution<S>(v: Seq<Seq<Seq<S>>>)
    requires
        is_cube(v),
    ensures
        transpose_xz_spec(transpose_xz_spec(v)) =~~= v,
{
}

/// A 2D transform keeps a square grid square, with the same side.
pub proof fn lemma_fft2d_spec_square<S: ScalarSpace>(m: Seq<Seq<S>>, inverse: bool)
    ensures
        fft2d_spec(m, inverse).len() == m.len(),
        is_square(fft2d_spec(m, inverse)),
{
    assert forall|i: int| 0 <= i < m.len() implies (#[trigger] fft2d_spec(m, inverse)[i]).len()
        == m.len() by {
    }
}

/// Applies the separable 2D transform to every plane, in place.
fn planes_pass<S: ScalarSpace>(p: &mut Vec<Vec<Vec<S>>>, inverse: bool)
    requires
        is_cube(grid_view(old(p)@)),
        is_power_of_two(old(p)@.len()),
    ensures
        grid_view(final(p)@) == planes_fft(grid_view(old(p)@), inverse),
        is_cube(grid_view(final(p)@)),
        final(p)@.len() == old(p)@.len(),
{
    let n = p.len();
    let ghost v0 = grid_view(p@);
    proof {
        assert forall|a: int| 0 <= a < n implies #[trigger] rows_view(p@[a]@) == v0[a] by {
            assert(grid_view(p@)[a] == rows_view(p@[a]@));
        }
    }
    let mut i: usize = 0;
    while i < n
        invariant
            p@.len() == n,
            v0.len() == n,
            v0 == grid_view(old(p)@),
            is_cube(v0),
            is_power_of_two(n as nat),
            i <= n,
            forall|a: int| 0 <= a < i ==> #[trigger] rows_view(p@[a]@) == fft2d_spec(
                v0[a],
                inverse,
            ),
            forall|a: int| i <= a < n ==> #[trigger] rows_view(p@[a]@) == v0[a],
        decreases n - i,
    {
        proof {
            assert(rows_view(p@[i as int]@) == v0[i as int]);
            assert(p@[i as int]@.len() == v0[i as int].len());
        }
        fft2d_in_place(&mut p[i], inverse);
        i = i + 1;
    }
    proof {
        assert forall|a: int| 0 <= a < n implies #[trigger] grid_view(p@)[a] == fft2d_spec(
            v0[a],
            inverse,
        ) by {
            assert(grid_view(p@)[a] == rows_view(p@[a]@));
        }
        assert(grid_view(p@) =~= planes_fft(v0, inverse));
        assert forall|a: int| 0 <= a < n implies is_square(#[trigger] planes_fft(v0, inverse)[a])
            && planes_fft(v0, inverse)[a].len() == n by {
            lemma_fft2d_spec_square(v0[a], inverse);
        }
    }
}

/// Applies the 1D transform to every row of every plane, in place.
fn deep_rows_pass<S: ScalarSpace>(p: &mut Vec<Vec<Vec<S>>>, inverse: bool)
    requires
        is_cube(grid_view(old(p)@)),
        is_power_of_two(old(p)@.len()),
    ensures
        grid_view(final(p)@) == deep_rows_fft(grid_view(old(p)@), inverse),
        is_cube(grid_view(final(p)@)),
        final(p)@.len() == old(p)@.len(),
{
    let n = p.len();
    let ghost v0 = grid_view(p@);
    proof {
        assert forall|a: int| 0 <= a < n implies #[trigger] rows_view(p@[a]@) == v0[a] by {
            assert(grid_view(p@)[a] == rows_view(p@[a]@));
        }
    }
    let mut i: usize = 0;
    while i < n
        invariant
            p@.len() == n,
            v0.len() == n,
            v0 == grid_view(old(p)@),
            is_cube(v0),
            is_power_of_two(n as nat),
            i <= n,
            forall|a: int| 0 <= a < i ==> #[trigger] rows_view(p@[a]@) == rows_fft(v0[a], inverse),
            forall|a: int| i <= a < n ==> #[trigger] rows_view(p@[a]@) == v0[a],
        decreases n - i,
    {
        proof {
            assert(rows_view(p@[i as int]@) == v0[i as int]);
            assert(p@[i as int]@.len() == v0[i as int].len());
        }
        rows_pass(&mut p[i], inverse);
        i = i + 1;
    }
    proof {
        assert forall|a: int| 0 <= a < n implies #[trigger] grid_view(p@)[a] == rows_fft(
            v0[a],
            inverse,
        ) by {
            assert(grid_view(p@)[a] == rows_view(p@[a]@));
        }
        assert(grid_view(p@) =~= deep_rows_fft(v0, inverse));
        assert forall|a: int| 0 <= a < n implies is_square(
            #[trigger] deep_rows_fft(v0, inverse)[a],
        ) && deep_rows_fft(v0, inverse)[a].len() == n by {
            assert forall|r: int| 0 <= r < n implies (#[trigger] rows_fft(v0[a], inverse)[r]).len()
                == n by {
                lemma_fft_spec_len(v0[a][r]);
            }
        }
    }
}

/// Transposes the x and z axes of a cube in place; each pair of mirror
/// elements with `x < z` is swapped exactly once.
fn transpose_xz_in_place<S: Copy>(p: &mut Vec<Vec<Vec<S>>>)
    requires
        is_cube(grid_view(old(p)@)),
    ensures
        grid_view(final(p)@) == transpose_xz_spec(grid_view(old(p)@)),
        is_cube(grid_view(final(p)@)),
        final(p)@.len() == old(p)@.len(),
{
    let n = p.len();
    let ghost v0 = grid_view(p@);
    proof {
        assert forall|a: int| 0 <= a < n implies (#[trigger] p@[a]@).len() == n by {
            assert(grid_view(p@)[a] == rows_view(p@[a]@));
        }
        assert forall|a: int, b: int| 0 <= a < n && 0 <= b < n implies (
        #[trigger] p@[a]@[b]@).len() == n by {
            assert(grid_view(p@)[a] == rows_view(p@[a]@));
            assert(rows_view(p@[a]@)[b] == p@[a]@[b]@);
        }
        assert forall|a: int, b: int, c: int|
            0 <= a < n && 0 <= b < n && 0 <= c < n implies #[trigger] p@[a]@[b]@[c]
            == v0[a][b][c] by {
            assert(grid_view(p@)[a] == rows_view(p@[a]@));
            assert(rows_view(p@[a]@)[b] == p@[a]@[b]@);
        }
    }
    let mut x: usize = 0;
    while x < n
        invariant
            p@.len() == n,
            v0.len() == n,
            v0 == grid_view(old(p)@),
            is_cube(v0),
            x <= n,
            forall|a: int| 0 <= a < n ==> (#[trigger] p@[a]@).len() == n,
            forall|a: int, b: int| 0 <= a < n && 0 <= b < n ==> (#[trigger] p@[a]@[b]@).len() == n,
            forall|a: int, b: int, c: int|
                0 <= a < n && 0 <= b < n && 0 <= c < n ==> #[trigger] p@[a]@[b]@[c] == (if (a < c
                    && a < x) || (c < a && c < x) {
                    v0[c][b][a]
                } else {
                    v0[a][b][c]
                }),
        decreases n - x,
    {
        let mut y: usize = 0;
        while y < n
            invariant
                p@.len() == n,
                v0.len() == n,
                is_cube(v0),
                x < n,
                y <= n,
                forall|a: int| 0 <= a < n ==> (#[trigger] p@[a]@).len() == n,
                forall|a: int, b: int|
                    0 <= a < n && 0 <= b < n ==> (#[trigger] p@[a]@[b]@).len() == n,
                forall|a: int, b: int, c: int|
                    0 <= a < n && 0 <= b < n && 0 <= c < n ==> #[trigger] p@[a]@[b]@[c] == (if (a
                        < c && (a < x || (a == x && b < y))) || (c < a && (c < x || (c == x && b
                        < y))) {
                        v0[c][b][a]
                    } else {
                        v0[a][b][c]
                    }),
            decreases n - y,
        {
            let mut z = x + 1;
            while z < n
                invariant
                    p@.len() == n,
                    v0.len() == n,
                    is_cube(v0),
                    x < n,
                    y < n,
                    x + 1 <= z <= n,
                    forall|a: int| 0 <= a < n ==> (#[trigger] p@[a]@).len() == n,
                    forall|a: int, b: int|
                        0 <= a < n && 0 <= b < n ==> (#[trigger] p@[a]@[b]@).len() == n,
                    forall|a: int, b: int, c: int|
                        0 <= a < n && 0 <= b < n && 0 <= c < n ==> #[trigger] p@[a]@[b]@[c] == (if (
                        a < c && (a < x || (a == x && (b < y || (b == y && c < z))))) || (c < a && (
                        c < x || (c == x && (b < y || (b == y && a < z))))) {
                            v0[c][b][a]
                        } else {
                            v0[a][b][c]
                        }),
                decreases n - z,
            {
                let tmp = p[x][y][z];
                let oth = p[z][y][x];
                p[x][y][z] = oth;
                p[z][y][x] = tmp;
                z = z + 1;
            }
            y = y + 1;
        }
        x = x + 1;
    }
    proof {
        assert forall|a: int, b: int| 0 <= a < n && 0 <= b < n implies #[trigger] grid_view(
            p@,
        )[a][b] =~= transpose_xz_spec(v0)[a][b] by {
            assert(grid_view(p@)[a] == rows_view(p@[a]@));
            assert(rows_view(p@[a]@)[b] == p@[a]@[b]@);
        }
        assert(grid_view(p@) =~~= transpose_xz_spec(v0));
    }
}

/// Checks that a volume is a cube with a power-of-two side.
fn check_cube<S>(p: &Vec<Vec<Vec<S>>>) -> (r: bool)
    ensures
        r == (is_cube(grid_view(p@)) && is_power_of_two(p@.len())),
{
    proof {
        assert forall|a: int| 0 <= a < p@.len() implies #[trigger] grid_view(p@)[a] == rows_view(
            p@[a]@,
        ) by {
        }
    }
    let n = p.len();
    if !check_power_of_two(n) {
        return false;
    }
    let mut i: usize = 0;
    while i < n
        invariant
            p@.len() == n,
            i <= n,
            forall|a: int| 0 <= a < i ==> (#[trigger] p@[a]@).len() == n,
            forall|a: int, b: int|
                0 <= a < i && 0 <= b < n ==> (#[trigger] p@[a]@[b]@).len() == n,
        decreases n - i,
    {
        if p[i].len() != n {
            proof {
                assert(grid_view(p@)[i as int] == rows_view(p@[i as int]@));
            }
            return false;
        }
        let mut j: usize = 0;
        while j < n
            invariant
                p@.len() == n,
                i < n,
                p@[i as int]@.len() == n,
                j <= n,
                forall|b: int| 0 <= b < j ==> (#[trigger] p@[i as int]@[b]@).len() == n,
            decreases n - j,
        {
            if p[i][j].len() != n {
                proof {
                    assert(grid_view(p@)[i as int] == rows_view(p@[i as int]@));
                    assert(rows_view(p@[i as int]@)[j as int] == p@[i as int]@[j as int]@);
                }
                return false;
            }
            j = j + 1;
        }
        i = i + 1;
    }
    proof {
        assert forall|a: int| 0 <= a < n implies is_square(#[trigger] grid_view(p@)[a])
            && grid_view(p@)[a].len() == n by {
            assert(grid_view(p@)[a] == rows_view(p@[a]@));
            assert forall|b: int| 0 <= b < n implies (#[trigger] rows_view(p@[a]@)[b]).len()
                == n by {
                assert(rows_view(p@[a]@)[b] == p@[a]@[b]@);
            }
        }
    }
    true
}

/// An N-by-N-by-N volume of scalars.
pub struct Field3D<S> {
    planes: Vec<Vec<Vec<S>>>,
}

impl<S> View for Field3D<S> {
    type V = Seq<Seq<Seq<S>>>;

    closed spec fn view(&self) -> Seq<Seq<Seq<S>>> {
        grid_view(self.planes@)
    }
}

impl<S: ScalarSpace> Field3D<S> {
    /// An `n`-by-`n`-by-`n` volume of zeros.
    pub fn zero(n: usize) -> (r: Self)
        ensures
            r@.len() == n,
            is_cube(r@),
            forall|i: int, j: int, k: int|
                0 <= i < n && 0 <= j < n && 0 <= k < n ==> r@[i][j][k] == S::szero(),
    {
        let mut planes: Vec<Vec<Vec<S>>> = Vec::new();
        let mut i: usize = 0;
        while i < n
            invariant
                i <= n,
                planes@.len() == i,
                forall|a: int| 0 <= a < i ==> (#[trigger] planes@[a]@).len() == n,
                forall|a: int, b: int|
                    0 <= a < i && 0 <= b < n ==> (#[trigger] planes@[a]@[b]@).len() == n,
                forall|a: int, b: int, c: int|
                    0 <= a < i && 0 <= b < n && 0 <= c < n ==> #[trigger] planes@[a]@[b]@[c]
                        == S::szero(),
            decreases n - i,
        {
            let mut plane: Vec<Vec<S>> = Vec::new();
            let mut j: usize = 0;
            while j < n
                invariant
                    j <= n,
                    plane@.len() == j,
                    forall|b: int| 0 <= b < j ==> (#[trigger] plane@[b]@).len() == n,
                    forall|b: int, c: int|
                        0 <= b < j && 0 <= c < n ==> #[trigger] plane@[b]@[c] == S::szero(),
                decreases n - j,
            {
                let row = Vector::<S>::zero(n);
                plane.push(row.get_data());
                j = j + 1;
            }
            planes.push(plane);
            i = i + 1;
        }
        let r = Field3D { planes };
        proof {
            assert forall|a: int| 0 <= a < n implies #[trigger] r@[a] == rows_view(
                r.planes@[a]@,
            ) by {
            }
            assert forall|a: int, b: int| 0 <= a < n && 0 <= b < n implies #[trigger] r@[a][b]
                == r.planes@[a]@[b]@ by {
                assert(r@[a] == rows_view(r.planes@[a]@));
                assert(rows_view(r.planes@[a]@)[b] == r.planes@[a]@[b]@);
            }
            assert(is_cube(r@));
        }
        r
    }

    /// The side length.
    pub fn size(&self) -> (r: usize)
        ensures
            r == self@.len(),
    {
        self.planes.len()
    }

    /// The element at `(x, y, z)`.
    pub fn get(&self, x: usize, y: usize, z: usize) -> (r: S)
        requires
            x < self@.len(),
            y < self@[x as int].len(),
            z < self@[x as int][y as int].len(),
        ensures
            r == self@[x as int][y as int][z as int],
    {
        proof {
            assert(grid_view(self.planes@)[x as int] == rows_view(self.planes@[x as int]@));
            assert(rows_view(self.planes@[x as int]@)[y as int]
                == self.planes@[x as int]@[y as int]@);
        }
        self.planes[x][y][z]
    }

    /// Replaces the element at `(x, y, z)`.
    pub fn set(&mut self, x: usize, y: usize, z: usize, value: S)
        requires
            x < old(self)@.len(),
            y < old(self)@[x as int].len(),
            z < old(self)@[x as int][y as int].len(),
        ensures
            final(self)@ == old(self)@.update(
                x as int,
                old(self)@[x as int].update(
                    y as int,
                    old(self)@[x as int][y as int].update(z as int, value),
                ),
            ),
    {
        proof {
            assert(grid_view(self.planes@)[x as int] == rows_view(self.planes@[x as int]@));
            assert(rows_view(self.planes@[x as int]@)[y as int]
                == self.planes@[x as int]@[y as int]@);
        }
        self.planes[x][y][z] = value;
        proof {
            assert forall|a: int| 0 <= a < self@.len() implies #[trigger] grid_view(
                self.planes@,
            )[a] == rows_view(self.planes@[a]@) by {
            }
            assert(self@ =~~= old(self)@.update(
                x as int,
                old(self)@[x as int].update(
                    y as int,
                    old(self)@[x as int][y as int].update(z as int, value),
                ),
            ));
        }
    }
}

impl<S: ScalarSpace> Field for Field3D<S> {
    open spec fn valid_size(&self) -> bool {
        is_cube(self@) && is_power_of_two(self@.len())
    }

    open spec fn is_fft_of(pre: Self, post: Self) -> bool {
        post@ == fft3d_spec(pre@, false)
    }

    open spec fn is_ifft_of(pre: Self, post: Self) -> bool {
        post@ == fft3d_spec(pre@, true)
    }

    fn fft(&mut self) -> (r: Result<(), TransformError>) {
        if !check_cube(&self.planes) {
            return Err(TransformError::InvalidLength);
        }
        planes_pass(&mut self.planes, false);
        transpose_xz_in_place(&mut self.planes);
        deep_rows_pass(&mut self.planes, false);
        transpose_xz_in_place(&mut self.planes);
        Ok(())
    }

    fn ifft(&mut self) -> (r: Result<(), TransformError>) {
        if !check_cube(&self.planes) {
            return Err(TransformError::InvalidLength);
        }
        planes_pass(&mut self.planes, true);
        transpose_xz_in_place(&mut self.planes);
        deep_rows_pass(&mut self.planes, true);
        transpose_xz_in_place(&mut self.planes);
        Ok(())
    }
}

} // verus!
