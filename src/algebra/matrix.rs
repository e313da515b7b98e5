use crate::element::{lemma_from_as_int, Element};
use crate::error::MathError;
use vstd::prelude::*;

verus! {

// Storage is row-major: the outer sequence holds the rows, and element
// `(i, j)` sits at column `j` of row `i`.

/// The rows of a table of vectors, as sequences.
pub open spec fn rows_of<N>(v: Seq<Vec<N>>) -> Seq<Seq<N>> {
    v.map_values(|r: Vec<N>| r@)
}

proof fn lemma_rows_of_push<N>(v: Seq<Vec<N>>, x: Vec<N>)
    ensures
        rows_of(v.push(x)) == rows_of(v).push(x@),
{
    assert(rows_of(v.push(x)) =~= rows_of(v).push(x@));
}

proof fn lemma_rows_of_update<N>(v: Seq<Vec<N>>, i: int, x: Vec<N>)
    requires
        0 <= i < v.len(),
    ensures
        rows_of(v.update(i, x)) == rows_of(v).update(i, x@),
{
    assert(rows_of(v.update(i, x)) =~= rows_of(v).update(i, x@));
}

/// The number of columns of a table: the length of its first row, or 0
/// when it has no rows.
pub open spec fn width<N>(rows: Seq<Seq<N>>) -> nat {
    if rows.len() == 0 {
        0
    } else {
        rows[0].len()
    }
}

/// Every row is as long as the first.
pub open spec fn is_rectangular<N>(rows: Seq<Seq<N>>) -> bool {
    forall|i: int| 0 <= i < rows.len() ==> #[trigger] rows[i].len() == width(rows)
}

/// Two tables with the same number of rows and of columns.
pub open spec fn same_shape<A, B>(a: Seq<Seq<A>>, b: Seq<Seq<B>>) -> bool {
    a.len() == b.len() && width(a) == width(b)
}

/// Column `j` of a table.
pub open spec fn column<N>(rows: Seq<Seq<N>>, j: int) -> Seq<N> {
    Seq::new(rows.len(), |i: int| rows[i][j])
}

/// The transpose: row `j` of the result is column `j` of `rows`.
pub open spec fn transposed<N>(rows: Seq<Seq<N>>) -> Seq<Seq<N>> {
    Seq::new(width(rows), |j: int| column(rows, j))
}

/// A table of `r` rows of `c` copies of the value standing for `v`.
pub open spec fn filled<N: Element>(r: nat, c: nat, v: int) -> Seq<Seq<N>> {
    Seq::new(r, |i: int| Seq::new(c, |j: int| N::from_int(v)))
}

/// The `n`-by-`n` identity table.
pub open spec fn identity_of<N: Element>(n: nat) -> Seq<Seq<N>> {
    Seq::new(n, |i: int| Seq::new(n, |j: int| N::from_int(if i == j { 1 } else { 0 })))
}

/// `rows` with every entry off the main diagonal replaced by zero.
pub open spec fn diagonal_of<N: Element>(rows: Seq<Seq<N>>) -> Seq<Seq<N>> {
    Seq::new(
        rows.len(),
        |i: int| Seq::new(rows[i].len(), |j: int| if i == j { rows[i][j] } else { N::from_int(0) }),
    )
}

/// The entry-wise image of `a` under `f`.
pub open spec fn map_entries<A, B>(a: Seq<Seq<A>>, f: spec_fn(A) -> B) -> Seq<Seq<B>> {
    Seq::new(a.len(), |i: int| Seq::new(a[i].len(), |j: int| f(a[i][j])))
}

/// The entry-wise combination of `a` and `b` under `f`, shaped as `a`.
pub open spec fn zip_entries<A, B, C>(a: Seq<Seq<A>>, b: Seq<Seq<B>>, f: spec_fn(A, B) -> C) -> Seq<Seq<C>> {
    Seq::new(a.len(), |i: int| Seq::new(a[i].len(), |j: int| f(a[i][j], b[i][j])))
}

/// Whether every entry-wise sum of `a` and `b` is representable.
pub open spec fn sum_fits<N: Element>(a: Seq<Seq<N>>, b: Seq<Seq<N>>) -> bool {
    forall|i: int, j: int|
        0 <= i < a.len() && 0 <= j < a[i].len() ==> N::fits(#[trigger] a[i][j].as_int() + b[i][j].as_int())
}

/// Whether every entry-wise difference of `a` and `b` is representable.
pub open spec fn difference_fits<N: Element>(a: Seq<Seq<N>>, b: Seq<Seq<N>>) -> bool {
    forall|i: int, j: int|
        0 <= i < a.len() && 0 <= j < a[i].len() ==> N::fits(#[trigger] a[i][j].as_int() - b[i][j].as_int())
}

/// Whether every entry of `a` times `s` is representable.
pub open spec fn scaled_fits<N: Element>(a: Seq<Seq<N>>, s: N) -> bool {
    forall|i: int, j: int|
        0 <= i < a.len() && 0 <= j < a[i].len() ==> N::fits(#[trigger] (s.as_int() * a[i][j].as_int()))
}

/// The entry-wise sum.
pub open spec fn sum_of<N: Element>(a: Seq<Seq<N>>, b: Seq<Seq<N>>) -> Seq<Seq<N>> {
    zip_entries(a, b, |x: N, y: N| N::from_int(x.as_int() + y.as_int()))
}

/// The entry-wise difference.
pub open spec fn difference_of<N: Element>(a: Seq<Seq<N>>, b: Seq<Seq<N>>) -> Seq<Seq<N>> {
    zip_entries(a, b, |x: N, y: N| N::from_int(x.as_int() - y.as_int()))
}

/// Every entry of `a` multiplied by `s`.
pub open spec fn scaled<N: Element>(a: Seq<Seq<N>>, s: N) -> Seq<Seq<N>> {
    map_entries(a, |x: N| N::from_int(s.as_int() * x.as_int()))
}

/// `sum of a[i][t] * b[t][j]` over `t < k`.
pub open spec fn dot_prefix<N: Element>(a: Seq<Seq<N>>, b: Seq<Seq<N>>, i: int, j: int, k: int) -> int
    decreases k,
{
    if k <= 0 {
        0
    } else {
        dot_prefix(a, b, i, j, k - 1) + a[i][k - 1].as_int() * b[k - 1][j].as_int()
    }
}

/// The matrix product of `a` and `b`: `a.len()` rows of `width(b)` entries.
pub open spec fn product_of<N: Element>(a: Seq<Seq<N>>, b: Seq<Seq<N>>) -> Seq<Seq<N>> {
    Seq::new(a.len(), |i: int| Seq::new(width(b), |j: int| N::from_int(dot_prefix(a, b, i, j, width(a) as int))))
}

/// Whether every partial sum and every term of the product of `a` and `b`
/// is representable.
pub open spec fn product_fits<N: Element>(a: Seq<Seq<N>>, b: Seq<Seq<N>>) -> bool {
    forall|i: int, j: int, k: int|
        0 <= i < a.len() && 0 <= j < width(b) && 0 <= k < width(a) ==> {
            &&& N::fits(#[trigger] dot_prefix(a, b, i, j, k + 1))
            &&& N::fits(a[i][k].as_int() * b[k][j].as_int())
        }
}

/// A copy of `v`, element by element.
pub(crate) fn copy_vec<N: Copy>(v: &Vec<N>) -> (r: Vec<N>)
    ensures
        r@ == v@,
{
    let mut r: Vec<N> = Vec::new();
    let mut i: usize = 0;
    while i < v.len()
        invariant
            i <= v@.len(),
            r@ == v@.subrange(0, i as int),
        decreases v@.len() - i,
    {
        r.push(v[i]);
        i = i + 1;
        assert(r@ =~= v@.subrange(0, i as int));
    }
    assert(r@ =~= v@);
    r
}

/// Whether `a` and `b` hold the same elements in the same order.
fn same_elements<N: Element>(a: &Vec<N>, b: &Vec<N>) -> (r: bool)
    ensures
        r == (a@ == b@),
{
    if a.len() != b.len() {
        return false;
    }
    let mut i: usize = 0;
    while i < a.len()
        invariant
            a@.len() == b@.len(),
            i <= a@.len(),
            forall|k: int| 0 <= k < i ==> a@[k] == b@[k],
        decreases a@.len() - i,
    {
        if !a[i].equals(&b[i]) {
            return false;
        }
        proof {
            N::lemma_injective(a@[i as int], b@[i as int]);
        }
        i = i + 1;
    }
    assert(a@ =~= b@);
    true
}

/// A dense matrix stored row by row. The counts it reports are those of
/// its rows at all times.
#[derive(Clone)]
pub struct Matrix<N> {
    values: Vec<Vec<N>>,
    nrows: usize,
    ncols: usize,
}

impl<N> View for Matrix<N> {
    type V = Seq<Seq<N>>;

    closed spec fn view(&self) -> Seq<Seq<N>> {
        rows_of(self.values@)
    }
}

impl<N: Copy> Matrix<N> {
    /// The cached counts match the rows, and the rows are all as long.
    pub closed spec fn wf(&self) -> bool {
        &&& self.nrows == self.values@.len()
        &&& self.ncols == width(self@)
        &&& is_rectangular(self@)
    }

    /// In a well-formed matrix every stored row is as long as the reported
    /// column count, and the reported counts are the shape of the rows.
    pub proof fn lemma_shape(&self)
        requires
            self.wf(),
        ensures
            is_rectangular(self@),
            self.nrows_spec() == self@.len(),
            self.ncols_spec() == width(self@),
    {
    }

    /// The row count the matrix reports.
    pub closed spec fn nrows_spec(&self) -> nat {
        self.nrows as nat
    }

    /// The column count the matrix reports.
    pub closed spec fn ncols_spec(&self) -> nat {
        self.ncols as nat
    }

    /// An empty matrix.
    pub fn init() -> (r: Matrix<N>)
        ensures
            r.wf(),
            r@ == Seq::<Seq<N>>::empty(),
    {
        let r = Matrix { values: Vec::new(), nrows: 0, ncols: 0 };
        assert(r@ =~= Seq::<Seq<N>>::empty());
        r
    }

    fn update_sizes(&mut self)
        requires
            is_rectangular(rows_of(old(self).values@)),
        ensures
            final(self).wf(),
            final(self).values == old(self).values,
    {
        self.nrows = self.values.len();
        if self.nrows > 0 {
            self.ncols = self.values[0].len();
        } else {
            self.ncols = 0;
        }
    }

    /// Replaces this matrix by `m`.
    pub fn copy(&mut self, m: Matrix<N>)
        requires
            m.wf(),
        ensures
            final(self).wf(),
            final(self)@ == m@,
    {
        self.values = m.values;
        self.ncols = m.ncols;
        self.nrows = m.nrows;
    }

    /// The number of rows.
    pub fn nrows(&self) -> (r: usize)
        requires
            self.wf(),
        ensures
            r == self@.len(),
    {
        self.nrows
    }

    /// The number of columns (0 when there are no rows).
    pub fn ncols(&self) -> (r: usize)
        requires
            self.wf(),
        ensures
            r == width(self@),
    {
        self.ncols
    }

    /// The element at row `i_row` and column `i_col`.
    pub fn get_element(&self, i_row: usize, i_col: usize) -> (r: Result<N, MathError>)
        requires
            self.wf(),
        ensures
            i_row < self@.len() && i_col < width(self@) ==> r == Ok::<N, MathError>(self@[i_row as int][i_col as int]),
            !(i_row < self@.len() && i_col < width(self@)) ==> r == Err::<N, MathError>(MathError::IndexOutOfBounds),
    {
        if i_row >= self.nrows || i_col >= self.ncols {
            return Err(MathError::IndexOutOfBounds);
        }
        assert(self@[i_row as int] == self.values@[i_row as int]@);
        Ok(self.values[i_row][i_col])
    }

    /// A copy of row `index`, or `None` when there is no such row.
    pub fn row(&self, index: usize) -> (r: Option<Vec<N>>)
        requires
            self.wf(),
        ensures
            match r {
                Some(v) => index < self@.len() && v@ == self@[index as int],
                None => index >= self@.len(),
            },
    {
        if index >= self.nrows {
            return None;
        }
        Some(copy_vec(&self.values[index]))
    }

    /// Replaces row `index` by `new_row`.
    pub fn set_row(&mut self, index: usize, new_row: &Vec<N>) -> (r: Result<(), MathError>)
        requires
            old(self).wf(),
        ensures
            final(self).wf(),
            index >= old(self)@.len() ==> r == Err::<(), MathError>(MathError::IndexOutOfBounds),
            index < old(self)@.len() && new_row@.len() != width(old(self)@) ==> r == Err::<(), MathError>(
                MathError::DimensionMismatch,
            ),
            r is Ok <==> index < old(self)@.len() && new_row@.len() == width(old(self)@),
            r is Ok ==> final(self)@ == old(self)@.update(index as int, new_row@),
            r is Err ==> final(self)@ == old(self)@,
    {
        if index >= self.nrows {
            return Err(MathError::IndexOutOfBounds);
        }
        if new_row.len() != self.ncols {
            return Err(MathError::DimensionMismatch);
        }
        let row = copy_vec(new_row);
        self.values[index] = row;
        assert(self@ =~= old(self)@.update(index as int, new_row@));
        assert(width(self@) == width(old(self)@));
        Ok(())
    }

    /// A copy of column `index`, or `None` when there is no such column.
    pub fn col(&self, index: usize) -> (r: Option<Vec<N>>)
        requires
            self.wf(),
        ensures
            match r {
                Some(v) => index < width(self@) && v@ == column(self@, index as int),
                None => index >= width(self@),
            },
    {
        if index >= self.ncols {
            return None;
        }
        let mut ret: Vec<N> = Vec::new();
        let mut i: usize = 0;
        while i < self.nrows
            invariant
                self.wf(),
                index < width(self@),
                i <= self.nrows,
                ret@ == column(self@, index as int).subrange(0, i as int),
            decreases self.nrows - i,
        {
            assert(self@[i as int] == self.values@[i as int]@);
            ret.push(self.values[i][index]);
            i = i + 1;
            assert(ret@ =~= column(self@, index as int).subrange(0, i as int));
        }
        assert(ret@ =~= column(self@, index as int));
        Some(ret)
    }

    /// Replaces column `index` by `new_col`.
    pub fn set_col(&mut self, index: usize, new_col: &Vec<N>) -> (r: Result<(), MathError>)
        requires
            old(self).wf(),
        ensures
            final(self).wf(),
            index >= width(old(self)@) ==> r == Err::<(), MathError>(MathError::IndexOutOfBounds),
            index < width(old(self)@) && new_col@.len() != old(self)@.len() ==> r == Err::<(), MathError>(
                MathError::DimensionMismatch,
            ),
            r is Ok <==> index < width(old(self)@) && new_col@.len() == old(self)@.len(),
            r is Ok ==> final(self)@ == Seq::new(
                old(self)@.len(),
                |i: int| old(self)@[i].update(index as int, new_col@[i]),
            ),
            r is Err ==> final(self)@ == old(self)@,
    {
        if index >= self.ncols {
            return Err(MathError::IndexOutOfBounds);
        }
        if new_col.len() != self.nrows {
            return Err(MathError::DimensionMismatch);
        }
        let ghost rows = self@;
        let ghost target = Seq::new(rows.len(), |i: int| rows[i].update(index as int, new_col@[i]));
        let mut i: usize = 0;
        while i < self.nrows
            invariant
                rows == old(self)@,
                is_rectangular(rows),
                target.len() == rows.len(),
                forall|k: int| 0 <= k < rows.len() ==> #[trigger] target[k] == rows[k].update(index as int, new_col@[k]),
                self.nrows == rows.len(),
                self.ncols == width(rows),
                index < self.ncols,
                new_col@.len() == self.nrows,
                i <= self.nrows,
                self.values@.len() == self.nrows,
                forall|k: int| 0 <= k < i ==> #[trigger] self@[k] == target[k],
                forall|k: int| i <= k < self.nrows ==> #[trigger] self@[k] == rows[k],
            decreases self.nrows - i,
        {
            assert(self@[i as int] == self.values@[i as int]@);
            let ghost before = self@;
            self.values[i][index] = new_col[i];
            assert(self@ =~= before.update(i as int, before[i as int].update(index as int, new_col@[i as int])));
            proof {
                assert forall|k: int| 0 <= k <= i implies #[trigger] self@[k] == target[k] by {
                    if k == i {
                        assert(self@[k] =~= target[k]);
                    }
                }
            }
            i = i + 1;
        }
        assert(self@ =~= target);
        Ok(())
    }

    /// Replaces the element at row `i_row` and column `i_col` by `val`.
    pub fn set_element(&mut self, i_row: usize, i_col: usize, val: &N) -> (r: Result<(), MathError>)
        requires
            old(self).wf(),
        ensures
            final(self).wf(),
            r is Ok <==> i_row < old(self)@.len() && i_col < width(old(self)@),
            r is Err ==> r == Err::<(), MathError>(MathError::IndexOutOfBounds) && final(self)@ == old(self)@,
            r is Ok ==> final(self)@ == old(self)@.update(
                i_row as int,
                old(self)@[i_row as int].update(i_col as int, *val),
            ),
    {
        if i_row >= self.nrows || i_col >= self.ncols {
            return Err(MathError::IndexOutOfBounds);
        }
        assert(self@[i_row as int] == self.values@[i_row as int]@);
        self.values[i_row][i_col] = *val;
        assert(self@ =~= old(self)@.update(i_row as int, old(self)@[i_row as int].update(i_col as int, *val)));
        assert(width(self@) == width(old(self)@));
        Ok(())
    }

    /// Appends `row` below the last row. Any row may start an empty matrix;
    /// after that a row must be as long as the others.
    pub fn push_row(&mut self, row: Vec<N>) -> (r: Result<(), MathError>)
        requires
            old(self).wf(),
        ensures
            final(self).wf(),
            r is Ok <==> old(self)@.len() == 0 || row@.len() == width(old(self)@),
            r is Ok ==> final(self)@ == old(self)@.push(row@),
            r is Err ==> r == Err::<(), MathError>(MathError::DimensionMismatch) && final(self)@ == old(self)@,
    {
        if self.nrows > 0 && row.len() != self.ncols {
            return Err(MathError::DimensionMismatch);
        }
        let ghost rows = self@;
        let ghost row_view = row@;
        self.values.push(row);
        assert(rows_of(self.values@) =~= rows.push(row_view));
        assert(is_rectangular(rows_of(self.values@)));
        self.update_sizes();
        Ok(())
    }

    /// Appends `col` right of the last column. Any column may start a matrix
    /// without rows, one row per element; after that a column must have
    /// one element per row.
    pub fn push_col(&mut self, col: Vec<N>) -> (r: Result<(), MathError>)
        requires
            old(self).wf(),
        ensures
            final(self).wf(),
            r is Ok <==> old(self)@.len() == 0 || col@.len() == old(self)@.len(),
            r is Ok && old(self)@.len() == 0 ==> final(self)@ == Seq::new(col@.len(), |i: int| seq![col@[i]]),
            r is Ok && old(self)@.len() > 0 ==> final(self)@ == Seq::new(
                old(self)@.len(),
                |i: int| old(self)@[i].push(col@[i]),
            ),
            r is Err ==> r == Err::<(), MathError>(MathError::DimensionMismatch) && final(self)@ == old(self)@,
    {
        if self.nrows > 0 && col.len() != self.nrows {
            return Err(MathError::DimensionMismatch);
        }
        let ghost rows = self@;
        if self.nrows == 0 {
            let mut values: Vec<Vec<N>> = Vec::new();
            let mut i: usize = 0;
            while i < col.len()
                invariant
                    i <= col@.len(),
                    values@.len() == i,
                    forall|k: int| 0 <= k < i ==> (#[trigger] values@[k])@ == seq![col@[k]],
                decreases col@.len() - i,
            {
                let mut one: Vec<N> = Vec::new();
                one.push(col[i]);
                values.push(one);
                i = i + 1;
            }
            assert(rows_of(values@) =~= Seq::new(col@.len(), |i: int| seq![col@[i]]));
            self.values = values;
        } else {
            let ghost target = Seq::new(rows.len(), |i: int| rows[i].push(col@[i]));
            let mut i: usize = 0;
            while i < self.nrows
                invariant
                    rows == old(self)@,
                    is_rectangular(rows),
                    target.len() == rows.len(),
                    forall|k: int| 0 <= k < rows.len() ==> #[trigger] target[k] == rows[k].push(col@[k]),
                    self.nrows == rows.len(),
                    col@.len() == self.nrows,
                    i <= self.nrows,
                    self.values@.len() == self.nrows,
                    forall|k: int| 0 <= k < i ==> #[trigger] self@[k] == target[k],
                    forall|k: int| i <= k < self.nrows ==> #[trigger] self@[k] == rows[k],
                decreases self.nrows - i,
            {
                assert(self@[i as int] == self.values@[i as int]@);
                let ghost before = self@;
                self.values[i].push(col[i]);
                assert(self@ =~= before.update(i as int, before[i as int].push(col@[i as int])));
                i = i + 1;
            }
            assert(self@ =~= target);
        }
        assert(is_rectangular(rows_of(self.values@)));
        self.update_sizes();
        Ok(())
    }

    /// Removes row `index`.
    pub fn pop_row(&mut self, index: usize) -> (r: Result<(), MathError>)
        requires
            old(self).wf(),
        ensures
            final(self).wf(),
            r is Ok <==> index < old(self)@.len(),
            r is Ok ==> final(self)@ == old(self)@.remove(index as int),
            r is Err ==> r == Err::<(), MathError>(MathError::IndexOutOfBounds) && final(self)@ == old(self)@,
    {
        if index >= self.nrows {
            return Err(MathError::IndexOutOfBounds);
        }
        let ghost rows = self@;
        self.values.remove(index);
        assert(rows_of(self.values@) =~= rows.remove(index as int));
        assert(is_rectangular(rows_of(self.values@))) by {
            let nr = rows_of(self.values@);
            assert forall|i: int| 0 <= i < nr.len() implies #[trigger] nr[i].len() == width(nr) by {
                assert(nr[i].len() == width(rows));
                assert(nr[0].len() == width(rows));
            }
        }
        self.update_sizes();
        Ok(())
    }

    /// Removes column `index`.
    pub fn pop_col(&mut self, index: usize) -> (r: Result<(), MathError>)
        requires
            old(self).wf(),
        ensures
            final(self).wf(),
            r is Ok <==> index < width(old(self)@),
            r is Ok ==> final(self)@ == Seq::new(old(self)@.len(), |i: int| old(self)@[i].remove(index as int)),
            r is Err ==> r == Err::<(), MathError>(MathError::IndexOutOfBounds) && final(self)@ == old(self)@,
    {
        if index >= self.ncols {
            return Err(MathError::IndexOutOfBounds);
        }
        let ghost rows = self@;
        let ghost target = Seq::new(rows.len(), |i: int| rows[i].remove(index as int));
        let mut i: usize = 0;
        while i < self.nrows
            invariant
                rows == old(self)@,
                is_rectangular(rows),
                target.len() == rows.len(),
                forall|k: int| 0 <= k < rows.len() ==> #[trigger] target[k] == rows[k].remove(index as int),
                self.nrows == rows.len(),
                index < width(rows),
                i <= self.nrows,
                self.values@.len() == self.nrows,
                forall|k: int| 0 <= k < i ==> #[trigger] self@[k] == target[k],
                forall|k: int| i <= k < self.nrows ==> #[trigger] self@[k] == rows[k],
            decreases self.nrows - i,
        {
            assert(self@[i as int] == self.values@[i as int]@);
            let ghost before = self@;
            self.values[i].remove(index);
            assert(self@ =~= before.update(i as int, before[i as int].remove(index as int)));
            i = i + 1;
        }
        assert(self@ =~= target);
        assert(is_rectangular(rows_of(self.values@)));
        self.update_sizes();
        Ok(())
    }

    /// Exchanges rows `index_a` and `index_b`.
    pub fn swap_row(&mut self, index_a: usize, index_b: usize) -> (r: Result<(), MathError>)
        requires
            old(self).wf(),
        ensures
            final(self).wf(),
            r is Ok <==> index_a < old(self)@.len() && index_b < old(self)@.len(),
            r is Ok ==> final(self)@ == old(self)@.update(index_a as int, old(self)@[index_b as int]).update(
                index_b as int,
                old(self)@[index_a as int],
            ),
            r is Err ==> r == Err::<(), MathError>(MathError::IndexOutOfBounds) && final(self)@ == old(self)@,
    {
        if index_a >= self.nrows || index_b >= self.nrows {
            return Err(MathError::IndexOutOfBounds);
        }
        if index_a == index_b {
            assert(self@ =~= self@.update(index_a as int, self@[index_b as int]).update(
                index_b as int,
                self@[index_a as int],
            ));
            return Ok(());
        }
        let ghost rows = self@;
        let ghost v0 = self.values@;
        let mut tmp: Vec<N> = Vec::new();
        let ghost empty = tmp;
        self.values.set_and_swap(index_a, &mut tmp);
        let ghost v1 = self.values@;
        self.values.set_and_swap(index_b, &mut tmp);
        let ghost v2 = self.values@;
        self.values.set_and_swap(index_a, &mut tmp);
        proof {
            lemma_rows_of_update(v0, index_a as int, empty);
            lemma_rows_of_update(v1, index_b as int, v0[index_a as int]);
            lemma_rows_of_update(v2, index_a as int, v1[index_b as int]);
        }
        assert(rows_of(self.values@) =~= rows.update(index_a as int, rows[index_b as int]).update(
            index_b as int,
            rows[index_a as int],
        ));
        assert(width(rows_of(self.values@)) == width(rows));
        Ok(())
    }

    /// Exchanges columns `index_a` and `index_b`.
    pub fn swap_col(&mut self, index_a: usize, index_b: usize) -> (r: Result<(), MathError>)
        requires
            old(self).wf(),
        ensures
            final(self).wf(),
            r is Ok <==> index_a < width(old(self)@) && index_b < width(old(self)@),
            r is Ok ==> final(self)@ == Seq::new(
                old(self)@.len(),
                |i: int|
                    old(self)@[i].update(index_a as int, old(self)@[i][index_b as int]).update(
                        index_b as int,
                        old(self)@[i][index_a as int],
                    ),
            ),
            r is Err ==> r == Err::<(), MathError>(MathError::IndexOutOfBounds) && final(self)@ == old(self)@,
    {
        if index_a >= self.ncols || index_b >= self.ncols {
            return Err(MathError::IndexOutOfBounds);
        }
        let ghost rows = self@;
        let ghost target = Seq::new(
            rows.len(),
            |i: int|
                rows[i].update(index_a as int, rows[i][index_b as int]).update(index_b as int, rows[i][index_a as int]),
        );
        let mut i: usize = 0;
        while i < self.nrows
            invariant
                rows == old(self)@,
                is_rectangular(rows),
                target.len() == rows.len(),
                forall|k: int|
                    0 <= k < rows.len() ==> #[trigger] target[k] == rows[k].update(
                        index_a as int,
                        rows[k][index_b as int],
                    ).update(index_b as int, rows[k][index_a as int]),
                self.nrows == rows.len(),
                self.ncols == width(rows),
                index_a < width(rows),
                index_b < width(rows),
                i <= self.nrows,
                self.values@.len() == self.nrows,
                forall|k: int| 0 <= k < i ==> #[trigger] self@[k] == target[k],
                forall|k: int| i <= k < self.nrows ==> #[trigger] self@[k] == rows[k],
            decreases self.nrows - i,
        {
            assert(self@[i as int] == self.values@[i as int]@);
            let ghost before = self@;
            let a: N = self.values[i][index_a];
            let b: N = self.values[i][index_b];
            self.values[i][index_a] = b;
            self.values[i][index_b] = a;
            assert(self@ =~= before.update(i as int, target[i as int]));
            i = i + 1;
        }
        assert(self@ =~= target);
        assert(width(self@) == width(rows));
        Ok(())
    }

    /// Removes every row.
    pub fn clear(&mut self)
        requires
            old(self).wf(),
        ensures
            final(self).wf(),
            final(self)@ == Seq::<Seq<N>>::empty(),
    {
        self.values.clear();
        assert(rows_of(self.values@) =~= Seq::<Seq<N>>::empty());
        self.update_sizes();
    }

    /// A matrix holding a copy of the table `val`, whose rows must all be
    /// as long.
    pub fn init_with_values(val: &Vec<Vec<N>>) -> (r: Result<Matrix<N>, MathError>)
        ensures
            r is Ok <==> is_rectangular(rows_of(val@)),
            match r {
                Ok(m) => m.wf() && m@ == rows_of(val@),
                Err(e) => e == MathError::ShapeError,
            },
    {
        let mut values: Vec<Vec<N>> = Vec::new();
        let mut i: usize = 0;
        while i < val.len()
            invariant
                i <= val@.len(),
                rows_of(values@) == rows_of(val@).subrange(0, i as int),
                is_rectangular(rows_of(values@)),
                i > 0 ==> width(rows_of(values@)) == val@[0]@.len(),
            decreases val@.len() - i,
        {
            if i > 0 && val[i].len() != val[0].len() {
                assert(rows_of(val@)[i as int].len() != width(rows_of(val@)));
                return Err(MathError::ShapeError);
            }
            let row = copy_vec(&val[i]);
            proof {
                lemma_rows_of_push(values@, row);
            }
            values.push(row);
            i = i + 1;
            assert(rows_of(values@) =~= rows_of(val@).subrange(0, i as int));
        }
        assert(rows_of(values@) =~= rows_of(val@));
        let mut m = Matrix { values, nrows: 0, ncols: 0 };
        m.update_sizes();
        Ok(m)
    }

    /// The transpose of this matrix, in place: row `j` becomes what column
    /// `j` was.
    pub fn transpose(&mut self)
        requires
            old(self).wf(),
        ensures
            final(self).wf(),
            final(self)@ == transposed(old(self)@),
    {
        let ghost rows = self@;
        let mut values: Vec<Vec<N>> = Vec::new();
        let mut j: usize = 0;
        while j < self.ncols
            invariant
                self@ == rows,
                self.wf(),
                j <= self.ncols,
                rows_of(values@) == transposed(rows).subrange(0, j as int),
            decreases self.ncols - j,
        {
            let c = self.col(j);
            let c = c.unwrap();
            proof {
                lemma_rows_of_push(values@, c);
            }
            values.push(c);
            j = j + 1;
            assert(rows_of(values@) =~= transposed(rows).subrange(0, j as int));
        }
        assert(rows_of(values@) =~= transposed(rows));
        assert(is_rectangular(transposed(rows)));
        self.values = values;
        self.update_sizes();
    }

    /// The block of rows `range_row[0]..=range_row[1]` and columns
    /// `range_col[0]..=range_col[1]`.
    pub fn submatrix(&self, range_row: &[usize; 2], range_col: &[usize; 2]) -> (r: Result<Matrix<N>, MathError>)
        requires
            self.wf(),
        ensures
            r is Ok <==> {
                &&& range_row@[0] <= range_row@[1] < self@.len()
                &&& range_col@[0] <= range_col@[1] < width(self@)
            },
            match r {
                Ok(m) => m.wf() && m@ == Seq::new(
                    (range_row@[1] - range_row@[0] + 1) as nat,
                    |i: int| self@[range_row@[0] + i].subrange(range_col@[0] as int, range_col@[1] + 1),
                ),
                Err(e) => e == MathError::InvalidRange,
            },
    {
        let r0 = range_row[0];
        let r1 = range_row[1];
        let c0 = range_col[0];
        let c1 = range_col[1];
        if r0 > r1 || c0 > c1 || r1 >= self.nrows || c1 >= self.ncols {
            return Err(MathError::InvalidRange);
        }
        let ghost target = Seq::new(
            (r1 - r0 + 1) as nat,
            |i: int| self@[r0 + i].subrange(c0 as int, c1 + 1),
        );
        let mut values: Vec<Vec<N>> = Vec::new();
        let mut i: usize = r0;
        while i <= r1
            invariant
                self.wf(),
                r0 <= i <= r1 + 1,
                r1 < self@.len(),
                c0 <= c1 < width(self@),
                target.len() == r1 - r0 + 1,
                forall|k: int| 0 <= k < target.len() ==> #[trigger] target[k] == self@[r0 + k].subrange(c0 as int, c1 + 1),
                rows_of(values@) == target.subrange(0, i - r0),
            decreases r1 + 1 - i,
        {
            assert(self@[i as int] == self.values@[i as int]@);
            let mut row: Vec<N> = Vec::new();
            let mut j: usize = c0;
            while j <= c1
                invariant
                    self.wf(),
                    i < self@.len(),
                    c0 <= j <= c1 + 1,
                    c1 < width(self@),
                    self@[i as int] == self.values@[i as int]@,
                    row@ == self@[i as int].subrange(c0 as int, j as int),
                decreases c1 + 1 - j,
            {
                row.push(self.values[i][j]);
                j = j + 1;
                assert(row@ =~= self@[i as int].subrange(c0 as int, j as int));
            }
            proof {
                lemma_rows_of_push(values@, row);
            }
            values.push(row);
            i = i + 1;
            assert(rows_of(values@) =~= target.subrange(0, i - r0));
        }
        assert(rows_of(values@) =~= target);
        assert(is_rectangular(target));
        let mut m = Matrix { values, nrows: 0, ncols: 0 };
        m.update_sizes();
        Ok(m)
    }
}

impl<N: Element> Matrix<N> {
    /// A matrix of `nr` rows of `nc` copies of `v`.
    fn filled_with(nr: usize, nc: usize, v: N) -> (r: Matrix<N>)
        ensures
            r.wf(),
            r@ == Seq::new(nr as nat, |i: int| Seq::new(nc as nat, |j: int| v)),
    {
        let ghost row_view = Seq::new(nc as nat, |j: int| v);
        let mut row: Vec<N> = Vec::new();
        let mut j: usize = 0;
        while j < nc
            invariant
                j <= nc,
                row_view == Seq::new(nc as nat, |j: int| v),
                row@ == row_view.subrange(0, j as int),
            decreases nc - j,
        {
            row.push(v);
            j = j + 1;
            assert(row@ =~= row_view.subrange(0, j as int));
        }
        assert(row@ =~= row_view);
        let mut values: Vec<Vec<N>> = Vec::new();
        let mut i: usize = 0;
        while i < nr
            invariant
                i <= nr,
                row_view == Seq::new(nc as nat, |j: int| v),
                row@ == row_view,
                rows_of(values@) == Seq::new(nr as nat, |i: int| row_view).subrange(0, i as int),
            decreases nr - i,
        {
            let copy = copy_vec(&row);
            proof {
                lemma_rows_of_push(values@, copy);
            }
            values.push(copy);
            i = i + 1;
            assert(rows_of(values@) =~= Seq::new(nr as nat, |i: int| row_view).subrange(0, i as int));
        }
        assert(rows_of(values@) =~= Seq::new(nr as nat, |i: int| Seq::new(nc as nat, |j: int| v)));
        let mut m = Matrix { values, nrows: 0, ncols: 0 };
        m.update_sizes();
        m
    }

    /// A matrix of `nr` rows of `nc` zeros: the storage is allocated and
    /// the counts are truthful from the start.
    pub fn init_with_capacity(nr: usize, nc: usize) -> (r: Matrix<N>)
        ensures
            r.wf(),
            r@ == filled::<N>(nr as nat, nc as nat, 0),
    {
        Self::zeros(nr, nc)
    }

    /// A matrix of `size_rows` rows of `size_columns` zeros.
    pub fn zeros(size_rows: usize, size_columns: usize) -> (r: Matrix<N>)
        ensures
            r.wf(),
            r@ == filled::<N>(size_rows as nat, size_columns as nat, 0),
    {
        let z = N::zero();
        proof {
            lemma_from_as_int(z);
        }
        let m = Self::filled_with(size_rows, size_columns, z);
        assert(m@ =~~= filled::<N>(size_rows as nat, size_columns as nat, 0));
        m
    }

    /// A matrix of `size_rows` rows of `size_columns` ones.
    pub fn ones(size_rows: usize, size_columns: usize) -> (r: Matrix<N>)
        ensures
            r.wf(),
            r@ == filled::<N>(size_rows as nat, size_columns as nat, 1),
    {
        let o = N::one();
        proof {
            lemma_from_as_int(o);
        }
        let m = Self::filled_with(size_rows, size_columns, o);
        assert(m@ =~~= filled::<N>(size_rows as nat, size_columns as nat, 1));
        m
    }

    /// The `size`-by-`size` identity matrix.
    pub fn create_identity(size: usize) -> (r: Matrix<N>)
        ensures
            r.wf(),
            r@ == identity_of::<N>(size as nat),
    {
        let o = N::one();
        let z = N::zero();
        proof {
            lemma_from_as_int(o);
            lemma_from_as_int(z);
        }
        let mut values: Vec<Vec<N>> = Vec::new();
        let mut i: usize = 0;
        while i < size
            invariant
                i <= size,
                o == N::from_int(1),
                z == N::from_int(0),
                rows_of(values@) == identity_of::<N>(size as nat).subrange(0, i as int),
            decreases size - i,
        {
            let mut row: Vec<N> = Vec::new();
            let mut j: usize = 0;
            while j < size
                invariant
                    i < size,
                    j <= size,
                    o == N::from_int(1),
                    z == N::from_int(0),
                    row@ == identity_of::<N>(size as nat)[i as int].subrange(0, j as int),
                decreases size - j,
            {
                if i == j {
                    row.push(o);
                } else {
                    row.push(z);
                }
                j = j + 1;
                assert(row@ =~= identity_of::<N>(size as nat)[i as int].subrange(0, j as int));
            }
            assert(row@ =~= identity_of::<N>(size as nat)[i as int]);
            proof {
                lemma_rows_of_push(values@, row);
            }
            values.push(row);
            i = i + 1;
            assert(rows_of(values@) =~= identity_of::<N>(size as nat).subrange(0, i as int));
        }
        assert(rows_of(values@) =~= identity_of::<N>(size as nat));
        let mut m = Matrix { values, nrows: 0, ncols: 0 };
        m.update_sizes();
        m
    }

    /// A matrix of `size_rows` rows of `size_columns` values drawn at random
    /// from the closed range `[range[0], range[1]]`.
    pub fn random(size_rows: usize, size_columns: usize, range: &[N; 2]) -> (r: Result<Matrix<N>, MathError>)
        ensures
            r is Ok <==> range@[0].as_int() <= range@[1].as_int(),
            match r {
                Ok(m) => {
                    &&& m.wf()
                    &&& m@.len() == size_rows
                    &&& forall|i: int| 0 <= i < size_rows ==> (#[trigger] m@[i]).len() == size_columns
                    &&& forall|i: int, j: int|
                        0 <= i < size_rows && 0 <= j < size_columns ==> range@[0].as_int()
                            <= (#[trigger] m@[i][j]).as_int() <= range@[1].as_int()
                },
                Err(e) => e == MathError::InvalidRange,
            },
    {
        let lo: N = range[0];
        let hi: N = range[1];
        if lo.greater(&hi) {
            return Err(MathError::InvalidRange);
        }
        let mut values: Vec<Vec<N>> = Vec::new();
        let mut i: usize = 0;
        while i < size_rows
            invariant
                i <= size_rows,
                lo == range@[0],
                hi == range@[1],
                lo.as_int() <= hi.as_int(),
                values@.len() == i,
                forall|k: int| 0 <= k < i ==> (#[trigger] values@[k])@.len() == size_columns,
                forall|k: int, l: int|
                    0 <= k < i && 0 <= l < size_columns ==> lo.as_int() <= (#[trigger] values@[k]@[l]).as_int()
                        <= hi.as_int(),
            decreases size_rows - i,
        {
            let mut row: Vec<N> = Vec::new();
            let mut j: usize = 0;
            while j < size_columns
                invariant
                    j <= size_columns,
                    lo.as_int() <= hi.as_int(),
                    row@.len() == j,
                    forall|l: int| 0 <= l < j ==> lo.as_int() <= (#[trigger] row@[l]).as_int() <= hi.as_int(),
                decreases size_columns - j,
            {
                row.push(N::draw(lo, hi));
                j = j + 1;
            }
            values.push(row);
            i = i + 1;
        }
        let ghost rows = rows_of(values@);
        assert forall|k: int| 0 <= k < size_rows implies #[trigger] rows[k] == values@[k]@ by {}
        assert(is_rectangular(rows_of(values@)));
        let mut m = Matrix { values, nrows: 0, ncols: 0 };
        m.update_sizes();
        Ok(m)
    }

    /// The index of the first row holding `element`, if any.
    pub fn contains(&self, element: &N) -> (r: Option<usize>)
        requires
            self.wf(),
        ensures
            match r {
                Some(i) => {
                    &&& i < self@.len()
                    &&& self@[i as int].contains(*element)
                    &&& forall|k: int| 0 <= k < i ==> !(#[trigger] self@[k]).contains(*element)
                },
                None => forall|k: int| 0 <= k < self@.len() ==> !(#[trigger] self@[k]).contains(*element),
            },
    {
        let mut i: usize = 0;
        while i < self.nrows
            invariant
                self.wf(),
                i <= self.nrows,
                forall|k: int| 0 <= k < i ==> !(#[trigger] self@[k]).contains(*element),
            decreases self.nrows - i,
        {
            assert(self@[i as int] == self.values@[i as int]@);
            let mut j: usize = 0;
            while j < self.values[i].len()
                invariant
                    self.wf(),
                    i < self.nrows,
                    self@[i as int] == self.values@[i as int]@,
                    j <= self@[i as int].len(),
                    forall|k: int| 0 <= k < i ==> !(#[trigger] self@[k]).contains(*element),
                    forall|l: int| 0 <= l < j ==> self@[i as int][l] != *element,
                decreases self@[i as int].len() - j,
            {
                if self.values[i][j].equals(element) {
                    proof {
                        N::lemma_injective(self@[i as int][j as int], *element);
                    }
                    return Some(i);
                }
                j = j + 1;
            }
            i = i + 1;
        }
        None
    }

    /// The index of the first row equal to `row`, if any.
    pub fn contains_row(&self, row: &Vec<N>) -> (r: Option<usize>)
        requires
            self.wf(),
        ensures
            match r {
                Some(i) => {
                    &&& i < self@.len()
                    &&& self@[i as int] == row@
                    &&& forall|k: int| 0 <= k < i ==> #[trigger] self@[k] != row@
                },
                None => forall|k: int| 0 <= k < self@.len() ==> #[trigger] self@[k] != row@,
            },
    {
        let mut i: usize = 0;
        while i < self.nrows
            invariant
                self.wf(),
                i <= self.nrows,
                forall|k: int| 0 <= k < i ==> #[trigger] self@[k] != row@,
            decreases self.nrows - i,
        {
            assert(self@[i as int] == self.values@[i as int]@);
            if same_elements(&self.values[i], row) {
                return Some(i);
            }
            i = i + 1;
        }
        None
    }

    /// The index of the first column equal to `column`, if any.
    pub fn contains_col(&self, column: &Vec<N>) -> (r: Option<usize>)
        requires
            self.wf(),
        ensures
            match r {
                Some(j) => {
                    &&& j < width(self@)
                    &&& crate::algebra::matrix::column(self@, j as int) == column@
                    &&& forall|k: int| 0 <= k < j ==> #[trigger] crate::algebra::matrix::column(self@, k) != column@
                },
                None => forall|k: int|
                    0 <= k < width(self@) ==> #[trigger] crate::algebra::matrix::column(self@, k) != column@,
            },
    {
        let mut j: usize = 0;
        while j < self.ncols
            invariant
                self.wf(),
                j <= self.ncols,
                forall|k: int| 0 <= k < j ==> #[trigger] crate::algebra::matrix::column(self@, k) != column@,
            decreases self.ncols - j,
        {
            let c = self.col(j).unwrap();
            if same_elements(&c, column) {
                return Some(j);
            }
            j = j + 1;
        }
        None
    }

    /// The matrix of the same shape holding the main diagonal of this
    /// square matrix, with zero elsewhere.
    pub fn get_diagonal(&self) -> (r: Result<Matrix<N>, MathError>)
        requires
            self.wf(),
        ensures
            r is Ok <==> self@.len() == width(self@),
            match r {
                Ok(m) => m.wf() && m@ == diagonal_of(self@),
                Err(e) => e == MathError::NotSquare,
            },
    {
        if self.ncols != self.nrows {
            return Err(MathError::NotSquare);
        }
        let z = N::zero();
        proof {
            lemma_from_as_int(z);
        }
        let mut values: Vec<Vec<N>> = Vec::new();
        let mut i: usize = 0;
        while i < self.nrows
            invariant
                self.wf(),
                self.nrows == self.ncols,
                z == N::from_int(0),
                i <= self.nrows,
                rows_of(values@) == diagonal_of(self@).subrange(0, i as int),
            decreases self.nrows - i,
        {
            assert(self@[i as int] == self.values@[i as int]@);
            let mut row: Vec<N> = Vec::new();
            let mut j: usize = 0;
            while j < self.ncols
                invariant
                    self.wf(),
                    self.nrows == self.ncols,
                    z == N::from_int(0),
                    i < self.nrows,
                    j <= self.ncols,
                    self@[i as int] == self.values@[i as int]@,
                    row@ == diagonal_of(self@)[i as int].subrange(0, j as int),
                decreases self.ncols - j,
            {
                if i == j {
                    row.push(self.values[i][j]);
                } else {
                    row.push(z);
                }
                j = j + 1;
                assert(row@ =~= diagonal_of(self@)[i as int].subrange(0, j as int));
            }
            assert(row@ =~= diagonal_of(self@)[i as int]);
            proof {
                lemma_rows_of_push(values@, row);
            }
            values.push(row);
            i = i + 1;
            assert(rows_of(values@) =~= diagonal_of(self@).subrange(0, i as int));
        }
        assert(rows_of(values@) =~= diagonal_of(self@));
        let mut m = Matrix { values, nrows: 0, ncols: 0 };
        m.update_sizes();
        Ok(m)
    }

    /// The matrix product of this matrix and `other`, which must have as
    /// many rows as this one has columns. Each entry is the sum of the
    /// products, accumulated from zero in column order.
    pub fn mul(&self, other: &Matrix<N>) -> (r: Result<Matrix<N>, MathError>)
        requires
            self.wf(),
            other.wf(),
            width(self@) == other@.len() ==> product_fits(self@, other@),
        ensures
            r is Ok <==> width(self@) == other@.len(),
            match r {
                Ok(m) => m.wf() && m@ == product_of(self@, other@),
                Err(e) => e == MathError::DimensionMismatch,
            },
    {
        if self.ncols != other.nrows {
            return Err(MathError::DimensionMismatch);
        }
        let mut values: Vec<Vec<N>> = Vec::new();
        let mut i: usize = 0;
        while i < self.nrows
            invariant
                self.wf(),
                other.wf(),
                width(self@) == other@.len(),
                product_fits(self@, other@),
                i <= self.nrows,
                rows_of(values@) == product_of(self@, other@).subrange(0, i as int),
            decreases self.nrows - i,
        {
            assert(self@[i as int] == self.values@[i as int]@);
            let mut row: Vec<N> = Vec::new();
            let mut j: usize = 0;
            while j < other.ncols
                invariant
                    self.wf(),
                    other.wf(),
                    width(self@) == other@.len(),
                    product_fits(self@, other@),
                    i < self.nrows,
                    j <= other.ncols,
                    self@[i as int] == self.values@[i as int]@,
                    row@ == product_of(self@, other@)[i as int].subrange(0, j as int),
                decreases other.ncols - j,
            {
                let mut sum: N = N::zero();
                let mut k: usize = 0;
                while k < self.ncols
                    invariant
                        self.wf(),
                        other.wf(),
                        width(self@) == other@.len(),
                        product_fits(self@, other@),
                        i < self.nrows,
                        j < other.ncols,
                        k <= self.ncols,
                        self@[i as int] == self.values@[i as int]@,
                        sum.as_int() == dot_prefix(self@, other@, i as int, j as int, k as int),
                    decreases self.ncols - k,
                {
                    assert(other@[k as int] == other.values@[k as int]@);
                    let a: N = self.values[i][k];
                    let b: N = other.values[k][j];
                    assert(N::fits(dot_prefix(self@, other@, i as int, j as int, k + 1)));
                    let term = a.times(b);
                    sum = sum.plus(term);
                    k = k + 1;
                }
                proof {
                    lemma_from_as_int(sum);
                }
                row.push(sum);
                j = j + 1;
                assert(row@ =~= product_of(self@, other@)[i as int].subrange(0, j as int));
            }
            assert(row@ =~= product_of(self@, other@)[i as int]);
            proof {
                lemma_rows_of_push(values@, row);
            }
            values.push(row);
            i = i + 1;
            assert(rows_of(values@) =~= product_of(self@, other@).subrange(0, i as int));
        }
        assert(rows_of(values@) =~= product_of(self@, other@));
        assert(is_rectangular(product_of(self@, other@)));
        let mut m = Matrix { values, nrows: 0, ncols: 0 };
        m.update_sizes();
        Ok(m)
    }

    /// For each entry, whether it equals `value`.
    pub fn equal_to(&self, value: &N) -> (r: Matrix<bool>)
        requires
            self.wf(),
        ensures
            r.wf(),
            r@ == map_entries(self@, |x: N| x.as_int() == value.as_int()),
    {
                let mut values: Vec<Vec<bool>> = Vec::new();
        let mut i: usize = 0;
        while i < self.nrows
            invariant
                self.wf(),
                    i <= self.nrows,
                rows_of(values@) == map_entries(self@, |x: N| x.as_int() == value.as_int()).subrange(0, i as int),
            decreases self.nrows - i,
        {
            assert(self@[i as int] == self.values@[i as int]@);
            let mut row: Vec<bool> = Vec::new();
            let mut j: usize = 0;
            while j < self.ncols
                invariant
                    self.wf(),
                            i < self.nrows,
                    j <= self.ncols,
                    self@[i as int] == self.values@[i as int]@,
                    row@ == map_entries(self@, |x: N| x.as_int() == value.as_int())[i as int].subrange(0, j as int),
                decreases self.ncols - j,
            {
                let x: N = self.values[i][j];
                let z: bool = x.equals(value);
                row.push(z);
                j = j + 1;
                assert(row@ =~= map_entries(self@, |x: N| x.as_int() == value.as_int())[i as int].subrange(0, j as int));
            }
            assert(row@ =~= map_entries(self@, |x: N| x.as_int() == value.as_int())[i as int]);
            proof {
                lemma_rows_of_push(values@, row);
            }
            values.push(row);
            i = i + 1;
            assert(rows_of(values@) =~= map_entries(self@, |x: N| x.as_int() == value.as_int()).subrange(0, i as int));
        }
        assert(rows_of(values@) =~= map_entries(self@, |x: N| x.as_int() == value.as_int()));
        let mut m = Matrix { values, nrows: 0, ncols: 0 };
        m.update_sizes();
        m
    }

    /// The entry-wise equality test of this matrix and `other`, which must have the
    /// same shape.
    pub fn equal_to_matrix(&self, other: &Matrix<N>) -> (r: Result<Matrix<bool>, MathError>)
        requires
            self.wf(),
            other.wf(),
        ensures
            r is Ok <==> same_shape(self@, other@),
            match r {
                Ok(m) => m.wf() && m@ == zip_entries(self@, other@, |x: N, y: N| x.as_int() == y.as_int()),
                Err(e) => e == MathError::DimensionMismatch,
            },
    {
        if self.nrows != other.nrows || self.ncols != other.ncols {
            return Err(MathError::DimensionMismatch);
        }
        let mut values: Vec<Vec<bool>> = Vec::new();
        let mut i: usize = 0;
        while i < self.nrows
            invariant
                self.wf(),
                other.wf(),
                same_shape(self@, other@),
                    i <= self.nrows,
                rows_of(values@) == zip_entries(self@, other@, |x: N, y: N| x.as_int() == y.as_int()).subrange(0, i as int),
            decreases self.nrows - i,
        {
            assert(self@[i as int] == self.values@[i as int]@);
            assert(other@[i as int] == other.values@[i as int]@);
            let mut row: Vec<bool> = Vec::new();
            let mut j: usize = 0;
            while j < self.ncols
                invariant
                    self.wf(),
                    other.wf(),
                    same_shape(self@, other@),
                            i < self.nrows,
                    j <= self.ncols,
                    self@[i as int] == self.values@[i as int]@,
                    other@[i as int] == other.values@[i as int]@,
                    row@ == zip_entries(self@, other@, |x: N, y: N| x.as_int() == y.as_int())[i as int].subrange(0, j as int),
                decreases self.ncols - j,
            {
                let x: N = self.values[i][j];
                let y: N = other.values[i][j];
                let z: bool = x.equals(&y);
                row.push(z);
                j = j + 1;
                assert(row@ =~= zip_entries(self@, other@, |x: N, y: N| x.as_int() == y.as_int())[i as int].subrange(0, j as int));
            }
            assert(row@ =~= zip_entries(self@, other@, |x: N, y: N| x.as_int() == y.as_int())[i as int]);
            proof {
                lemma_rows_of_push(values@, row);
            }
            values.push(row);
            i = i + 1;
            assert(rows_of(values@) =~= zip_entries(self@, other@, |x: N, y: N| x.as_int() == y.as_int()).subrange(0, i as int));
        }
        assert(rows_of(values@) =~= zip_entries(self@, other@, |x: N, y: N| x.as_int() == y.as_int()));
        let mut m = Matrix { values, nrows: 0, ncols: 0 };
        m.update_sizes();
        Ok(m)
    }

    /// For each entry, whether it is greater than `value`.
    pub fn bigger_than(&self, value: &N) -> (r: Matrix<bool>)
        requires
            self.wf(),
        ensures
            r.wf(),
            r@ == map_entries(self@, |x: N| x.as_int() > value.as_int()),
    {
                let mut values: Vec<Vec<bool>> = Vec::new();
        let mut i: usize = 0;
        while i < self.nrows
            invariant
                self.wf(),
                    i <= self.nrows,
                rows_of(values@) == map_entries(self@, |x: N| x.as_int() > value.as_int()).subrange(0, i as int),
            decreases self.nrows - i,
        {
            assert(self@[i as int] == self.values@[i as int]@);
            let mut row: Vec<bool> = Vec::new();
            let mut j: usize = 0;
            while j < self.ncols
                invariant
                    self.wf(),
                            i < self.nrows,
                    j <= self.ncols,
                    self@[i as int] == self.values@[i as int]@,
                    row@ == map_entries(self@, |x: N| x.as_int() > value.as_int())[i as int].subrange(0, j as int),
                decreases self.ncols - j,
            {
                let x: N = self.values[i][j];
                let z: bool = x.greater(value);
                row.push(z);
                j = j + 1;
                assert(row@ =~= map_entries(self@, |x: N| x.as_int() > value.as_int())[i as int].subrange(0, j as int));
            }
            assert(row@ =~= map_entries(self@, |x: N| x.as_int() > value.as_int())[i as int]);
            proof {
                lemma_rows_of_push(values@, row);
            }
            values.push(row);
            i = i + 1;
            assert(rows_of(values@) =~= map_entries(self@, |x: N| x.as_int() > value.as_int()).subrange(0, i as int));
        }
        assert(rows_of(values@) =~= map_entries(self@, |x: N| x.as_int() > value.as_int()));
        let mut m = Matrix { values, nrows: 0, ncols: 0 };
        m.update_sizes();
        m
    }

    /// The entry-wise greater-than test of this matrix and `other`, which must have the
    /// same shape.
    pub fn bigger_than_matrix(&self, other: &Matrix<N>) -> (r: Result<Matrix<bool>, MathError>)
        requires
            self.wf(),
            other.wf(),
        ensures
            r is Ok <==> same_shape(self@, other@),
            match r {
                Ok(m) => m.wf() && m@ == zip_entries(self@, other@, |x: N, y: N| x.as_int() > y.as_int()),
                Err(e) => e == MathError::DimensionMismatch,
            },
    {
        if self.nrows != other.nrows || self.ncols != other.ncols {
            return Err(MathError::DimensionMismatch);
        }
        let mut values: Vec<Vec<bool>> = Vec::new();
        let mut i: usize = 0;
        while i < self.nrows
            invariant
                self.wf(),
                other.wf(),
                same_shape(self@, other@),
                    i <= self.nrows,
                rows_of(values@) == zip_entries(self@, other@, |x: N, y: N| x.as_int() > y.as_int()).subrange(0, i as int),
            decreases self.nrows - i,
        {
            assert(self@[i as int] == self.values@[i as int]@);
            assert(other@[i as int] == other.values@[i as int]@);
            let mut row: Vec<bool> = Vec::new();
            let mut j: usize = 0;
            while j < self.ncols
                invariant
                    self.wf(),
                    other.wf(),
                    same_shape(self@, other@),
                            i < self.nrows,
                    j <= self.ncols,
                    self@[i as int] == self.values@[i as int]@,
                    other@[i as int] == other.values@[i as int]@,
                    row@ == zip_entries(self@, other@, |x: N, y: N| x.as_int() > y.as_int())[i as int].subrange(0, j as int),
                decreases self.ncols - j,
            {
                let x: N = self.values[i][j];
                let y: N = other.values[i][j];
                let z: bool = x.greater(&y);
                row.push(z);
                j = j + 1;
                assert(row@ =~= zip_entries(self@, other@, |x: N, y: N| x.as_int() > y.as_int())[i as int].subrange(0, j as int));
            }
            assert(row@ =~= zip_entries(self@, other@, |x: N, y: N| x.as_int() > y.as_int())[i as int]);
            proof {
                lemma_rows_of_push(values@, row);
            }
            values.push(row);
            i = i + 1;
            assert(rows_of(values@) =~= zip_entries(self@, other@, |x: N, y: N| x.as_int() > y.as_int()).subrange(0, i as int));
        }
        assert(rows_of(values@) =~= zip_entries(self@, other@, |x: N, y: N| x.as_int() > y.as_int()));
        let mut m = Matrix { values, nrows: 0, ncols: 0 };
        m.update_sizes();
        Ok(m)
    }

    /// Every entry multiplied by `scalar`.
    pub fn scalar_mul(&self, scalar: N) -> (r: Matrix<N>)
        requires
            self.wf(),
            scaled_fits(self@, scalar),
        ensures
            r.wf(),
            r@ == scaled(self@, scalar),
    {
                let mut values: Vec<Vec<N>> = Vec::new();
        let mut i: usize = 0;
        while i < self.nrows
            invariant
                self.wf(),
                scaled_fits(self@, scalar),
                i <= self.nrows,
                rows_of(values@) == scaled(self@, scalar).subrange(0, i as int),
            decreases self.nrows - i,
        {
            assert(self@[i as int] == self.values@[i as int]@);
            let mut row: Vec<N> = Vec::new();
            let mut j: usize = 0;
            while j < self.ncols
                invariant
                    self.wf(),
                    scaled_fits(self@, scalar),
                    i < self.nrows,
                    j <= self.ncols,
                    self@[i as int] == self.values@[i as int]@,
                    row@ == scaled(self@, scalar)[i as int].subrange(0, j as int),
                decreases self.ncols - j,
            {
                let x: N = self.values[i][j];
                assert(N::fits(scalar.as_int() * self@[i as int][j as int].as_int()));
                let z: N = scalar.times(x);
                proof {
                    lemma_from_as_int(z);
                }
                row.push(z);
                j = j + 1;
                assert(row@ =~= scaled(self@, scalar)[i as int].subrange(0, j as int));
            }
            assert(row@ =~= scaled(self@, scalar)[i as int]);
            proof {
                lemma_rows_of_push(values@, row);
            }
            values.push(row);
            i = i + 1;
            assert(rows_of(values@) =~= scaled(self@, scalar).subrange(0, i as int));
        }
        assert(rows_of(values@) =~= scaled(self@, scalar));
        let mut m = Matrix { values, nrows: 0, ncols: 0 };
        m.update_sizes();
        m
    }

    /// The entry-wise sum of this matrix and `other`, which must have the
    /// same shape.
    pub fn add(&self, other: &Matrix<N>) -> (r: Result<Matrix<N>, MathError>)
        requires
            self.wf(),
            other.wf(),
            same_shape(self@, other@) ==> sum_fits(self@, other@),
        ensures
            r is Ok <==> same_shape(self@, other@),
            match r {
                Ok(m) => m.wf() && m@ == sum_of(self@, other@),
                Err(e) => e == MathError::DimensionMismatch,
            },
    {
        if self.nrows != other.nrows || self.ncols != other.ncols {
            return Err(MathError::DimensionMismatch);
        }
        let mut values: Vec<Vec<N>> = Vec::new();
        let mut i: usize = 0;
        while i < self.nrows
            invariant
                self.wf(),
                other.wf(),
                same_shape(self@, other@),
                sum_fits(self@, other@),
                i <= self.nrows,
                rows_of(values@) == sum_of(self@, other@).subrange(0, i as int),
            decreases self.nrows - i,
        {
            assert(self@[i as int] == self.values@[i as int]@);
            assert(other@[i as int] == other.values@[i as int]@);
            let mut row: Vec<N> = Vec::new();
            let mut j: usize = 0;
            while j < self.ncols
                invariant
                    self.wf(),
                    other.wf(),
                    same_shape(self@, other@),
                    sum_fits(self@, other@),
                    i < self.nrows,
                    j <= self.ncols,
                    self@[i as int] == self.values@[i as int]@,
                    other@[i as int] == other.values@[i as int]@,
                    row@ == sum_of(self@, other@)[i as int].subrange(0, j as int),
                decreases self.ncols - j,
            {
                let x: N = self.values[i][j];
                let y: N = other.values[i][j];
                assert(N::fits(self@[i as int][j as int].as_int() + other@[i as int][j as int].as_int()));
                let z: N = x.plus(y);
                proof {
                    lemma_from_as_int(z);
                }
                row.push(z);
                j = j + 1;
                assert(row@ =~= sum_of(self@, other@)[i as int].subrange(0, j as int));
            }
            assert(row@ =~= sum_of(self@, other@)[i as int]);
            proof {
                lemma_rows_of_push(values@, row);
            }
            values.push(row);
            i = i + 1;
            assert(rows_of(values@) =~= sum_of(self@, other@).subrange(0, i as int));
        }
        assert(rows_of(values@) =~= sum_of(self@, other@));
        let mut m = Matrix { values, nrows: 0, ncols: 0 };
        m.update_sizes();
        Ok(m)
    }

    /// The entry-wise difference of this matrix and `other`, which must have the
    /// same shape.
    pub fn sub(&self, other: &Matrix<N>) -> (r: Result<Matrix<N>, MathError>)
        requires
            self.wf(),
            other.wf(),
            same_shape(self@, other@) ==> difference_fits(self@, other@),
        ensures
            r is Ok <==> same_shape(self@, other@),
            match r {
                Ok(m) => m.wf() && m@ == difference_of(self@, other@),
                Err(e) => e == MathError::DimensionMismatch,
            },
    {
        if self.nrows != other.nrows || self.ncols != other.ncols {
            return Err(MathError::DimensionMismatch);
        }
        let mut values: Vec<Vec<N>> = Vec::new();
        let mut i: usize = 0;
        while i < self.nrows
            invariant
                self.wf(),
                other.wf(),
                same_shape(self@, other@),
                difference_fits(self@, other@),
                i <= self.nrows,
                rows_of(values@) == difference_of(self@, other@).subrange(0, i as int),
            decreases self.nrows - i,
        {
            assert(self@[i as int] == self.values@[i as int]@);
            assert(other@[i as int] == other.values@[i as int]@);
            let mut row: Vec<N> = Vec::new();
            let mut j: usize = 0;
            while j < self.ncols
                invariant
                    self.wf(),
                    other.wf(),
                    same_shape(self@, other@),
                    difference_fits(self@, other@),
                    i < self.nrows,
                    j <= self.ncols,
                    self@[i as int] == self.values@[i as int]@,
                    other@[i as int] == other.values@[i as int]@,
                    row@ == difference_of(self@, other@)[i as int].subrange(0, j as int),
                decreases self.ncols - j,
            {
                let x: N = self.values[i][j];
                let y: N = other.values[i][j];
                assert(N::fits(self@[i as int][j as int].as_int() - other@[i as int][j as int].as_int()));
                let z: N = x.minus(y);
                proof {
                    lemma_from_as_int(z);
                }
                row.push(z);
                j = j + 1;
                assert(row@ =~= difference_of(self@, other@)[i as int].subrange(0, j as int));
            }
            assert(row@ =~= difference_of(self@, other@)[i as int]);
            proof {
                lemma_rows_of_push(values@, row);
            }
            values.push(row);
            i = i + 1;
            assert(rows_of(values@) =~= difference_of(self@, other@).subrange(0, i as int));
        }
        assert(rows_of(values@) =~= difference_of(self@, other@));
        let mut m = Matrix { values, nrows: 0, ncols: 0 };
        m.update_sizes();
        Ok(m)
    }
}


impl<N: Element> PartialEq for Matrix<N> {
    fn eq(&self, other: &Matrix<N>) -> (r: bool) {
        if self.values.len() != other.values.len() {
            return false;
        }
        let mut i: usize = 0;
        while i < self.values.len()
            invariant
                self@.len() == other@.len(),
                self.values@.len() == self@.len(),
                i <= self@.len(),
                forall|k: int| 0 <= k < i ==> #[trigger] self@[k] == other@[k],
            decreases self@.len() - i,
        {
            assert(self@[i as int] == self.values@[i as int]@);
            assert(other@[i as int] == other.values@[i as int]@);
            if !same_elements(&self.values[i], &other.values[i]) {
                return false;
            }
            i = i + 1;
        }
        assert(self@ =~= other@);
        true
    }
}

impl<N: Element> vstd::std_specs::cmp::PartialEqSpecImpl for Matrix<N> {
    open spec fn obeys_eq_spec() -> bool {
        true
    }

    /// Two matrices are equal when they hold the same rows; matrices of
    /// different shapes are never equal.
    open spec fn eq_spec(&self, other: &Matrix<N>) -> bool {
        self@ == other@
    }
}

/// Walks the rows of a matrix from a chosen row on. It reads the matrix
/// as it was when the walk began.
pub struct IteratorRow<'a, N> {
    m: &'a Matrix<N>,
    index: usize,
}

impl<'a, N: Copy> IteratorRow<'a, N> {
    /// The rows being walked.
    pub closed spec fn rows(&self) -> Seq<Seq<N>> {
        self.m@
    }

    /// The index of the row the next step yields.
    pub closed spec fn position(&self) -> nat {
        self.index as nat
    }

    pub closed spec fn wf(&self) -> bool {
        self.m.wf()
    }

    /// The next row, or `None` once every row has been yielded.
    pub fn next(&mut self) -> (r: Option<&'a Vec<N>>)
        requires
            old(self).wf(),
        ensures
            final(self).wf(),
            final(self).rows() == old(self).rows(),
            match r {
                Some(v) => {
                    &&& old(self).position() < old(self).rows().len()
                    &&& v@ == old(self).rows()[old(self).position() as int]
                    &&& final(self).position() == old(self).position() + 1
                },
                None => {
                    &&& old(self).position() >= old(self).rows().len()
                    &&& final(self).position() == old(self).position()
                },
            },
    {
        if self.index >= self.m.nrows {
            return None;
        }
        let i = self.index;
        self.index = self.index + 1;
        assert(self.m@[i as int] == self.m.values@[i as int]@);
        Some(&self.m.values[i])
    }
}

/// Walks the columns of a matrix from a chosen column on, copying each
/// column as it is reached.
pub struct IteratorCol<'a, N> {
    m: &'a Matrix<N>,
    index: usize,
}

impl<'a, N: Copy> IteratorCol<'a, N> {
    /// The rows of the matrix whose columns are walked.
    pub closed spec fn rows(&self) -> Seq<Seq<N>> {
        self.m@
    }

    /// The index of the column the next step yields.
    pub closed spec fn position(&self) -> nat {
        self.index as nat
    }

    pub closed spec fn wf(&self) -> bool {
        self.m.wf()
    }

    /// The next column, or `None` once every column has been yielded.
    pub fn next(&mut self) -> (r: Option<Vec<N>>)
        requires
            old(self).wf(),
        ensures
            final(self).wf(),
            final(self).rows() == old(self).rows(),
            match r {
                Some(v) => {
                    &&& old(self).position() < width(old(self).rows())
                    &&& v@ == column(old(self).rows(), old(self).position() as int)
                    &&& final(self).position() == old(self).position() + 1
                },
                None => {
                    &&& old(self).position() >= width(old(self).rows())
                    &&& final(self).position() == old(self).position()
                },
            },
    {
        if self.index >= self.m.ncols {
            return None;
        }
        let c = self.m.col(self.index);
        self.index = self.index + 1;
        c
    }
}

/// Walks the elements of a matrix in row-major order from a chosen
/// position on: position `p` is row `p / ncols`, column `p % ncols`.
pub struct IteratorElement<'a, N> {
    m: &'a Matrix<N>,
    row: usize,
    col: usize,
}

impl<'a, N: Copy> IteratorElement<'a, N> {
    /// The rows whose elements are walked.
    pub closed spec fn rows(&self) -> Seq<Seq<N>> {
        self.m@
    }

    /// The row-major position of the element the next step yields.
    pub closed spec fn position(&self) -> int {
        self.row * width(self.m@) + self.col
    }

    pub closed spec fn wf(&self) -> bool {
        &&& self.m.wf()
        &&& width(self.m@) > 0 ==> self.col < width(self.m@)
    }

    /// The next element, or `None` once every element has been yielded.
    pub fn next(&mut self) -> (r: Option<N>)
        requires
            old(self).wf(),
        ensures
            final(self).wf(),
            final(self).rows() == old(self).rows(),
            ({
                let rows = old(self).rows();
                let p = old(self).position();
                let c = width(rows) as int;
                match r {
                    Some(v) => {
                        &&& c > 0
                        &&& p < rows.len() * c
                        &&& v == rows[p / c][p % c]
                        &&& final(self).position() == p + 1
                    },
                    None => {
                        &&& (c == 0 || p >= rows.len() * c)
                        &&& final(self).position() == p
                    },
                }
            }),
    {
        let ncols = self.m.ncols;
        if ncols == 0 || self.row >= self.m.nrows {
            proof {
                if ncols > 0 {
                    let (row, col, c, r) = (self.row as int, self.col as int, ncols as int, self.m@.len() as int);
                    assert(row * c + col >= r * c) by (nonlinear_arith)
                        requires
                            row >= r,
                            c > 0,
                            col >= 0,
                    {
                    }
                }
            }
            return None;
        }
        let ghost p = self.row * ncols + self.col;
        let ghost (row0, col0) = (self.row as int, self.col as int);
        proof {
            let (row, col, c, r) = (self.row as int, self.col as int, ncols as int, self.m@.len() as int);
            assert(row * c + col < r * c) by (nonlinear_arith)
                requires
                    row < r,
                    0 <= col < c,
            {
            }
            vstd::arithmetic::div_mod::lemma_fundamental_div_mod_converse(row * c + col, c, row, col);
        }
        assert(self.m@[self.row as int] == self.m.values@[self.row as int]@);
        let v: N = self.m.values[self.row][self.col];
        if self.col + 1 == ncols {
            self.row = self.row + 1;
            self.col = 0;
        } else {
            self.col = self.col + 1;
        }
        proof {
            let (row1, col1, c) = (self.row as int, self.col as int, ncols as int);
            assert(row1 * c + col1 == p + 1) by (nonlinear_arith)
                requires
                    p == row0 * c + col0,
                    col0 + 1 == c ==> row1 == row0 + 1 && col1 == 0,
                    col0 + 1 != c ==> row1 == row0 && col1 == col0 + 1,
            {
            }
        }
        Some(v)
    }
}

impl<N: Copy> Matrix<N> {
    /// A walk over the columns starting at column `n`.
    pub fn col_iter_at<'a>(&'a self, n: usize) -> (r: IteratorCol<'a, N>)
        requires
            self.wf(),
        ensures
            r.wf(),
            r.rows() == self@,
            r.position() == n,
    {
        IteratorCol { m: self, index: n }
    }

    /// A walk over all columns.
    pub fn col_iter<'a>(&'a self) -> (r: IteratorCol<'a, N>)
        requires
            self.wf(),
        ensures
            r.wf(),
            r.rows() == self@,
            r.position() == 0,
    {
        self.col_iter_at(0)
    }

    /// A walk over the rows starting at row `n`.
    pub fn row_iter_at<'a>(&'a self, n: usize) -> (r: IteratorRow<'a, N>)
        requires
            self.wf(),
        ensures
            r.wf(),
            r.rows() == self@,
            r.position() == n,
    {
        IteratorRow { m: self, index: n }
    }

    /// A walk over all rows.
    pub fn row_iter<'a>(&'a self) -> (r: IteratorRow<'a, N>)
        requires
            self.wf(),
        ensures
            r.wf(),
            r.rows() == self@,
            r.position() == 0,
    {
        self.row_iter_at(0)
    }

    /// A walk over the elements in row-major order starting at position `n`.
    pub fn el_iter_at<'a>(&'a self, n: usize) -> (r: IteratorElement<'a, N>)
        requires
            self.wf(),
        ensures
            r.wf(),
            r.rows() == self@,
            r.position() == n,
    {
        if self.ncols == 0 {
            return IteratorElement { m: self, row: 0, col: n };
        }
        let r = IteratorElement { m: self, row: n / self.ncols, col: n % self.ncols };
        proof {
            let c = self.ncols as int;
            vstd::arithmetic::div_mod::lemma_fundamental_div_mod(n as int, c);
            assert((n as int / c) * c == c * (n as int / c)) by (nonlinear_arith);
        }
        r
    }

    /// A walk over all elements in row-major order.
    pub fn el_iter<'a>(&'a self) -> (r: IteratorElement<'a, N>)
        requires
            self.wf(),
        ensures
            r.wf(),
            r.rows() == self@,
            r.position() == 0,
    {
        self.el_iter_at(0)
    }
}

/// Transposing twice gives the matrix back. A matrix with rows but no
/// columns is the one exception: its transpose has no rows at all.
pub proof fn lemma_transpose_involution<N: Copy>(m: &Matrix<N>)
    requires
        m.wf(),
        !(m@.len() > 0 && width(m@) == 0),
    ensures
        transposed(transposed(m@)) == m@,
{
    let rows = m@;
    let t = transposed(rows);
    if rows.len() > 0 {
        assert(width(t) == rows.len());
        assert forall|i: int| 0 <= i < rows.len() implies #[trigger] transposed(t)[i] == rows[i] by {
            assert(transposed(t)[i] =~= rows[i]);
        }
    }
    assert(transposed(t) =~= rows);
}

/// The product of an `r`-by-`k` and a `k`-by-`c` matrix has `r` rows of
/// `c` entries.
pub proof fn lemma_product_shape<N: Element>(a: &Matrix<N>, b: &Matrix<N>)
    requires
        a.wf(),
        b.wf(),
        width(a@) == b@.len(),
    ensures
        product_of(a@, b@).len() == a@.len(),
        forall|i: int| 0 <= i < a@.len() ==> (#[trigger] product_of(a@, b@)[i]).len() == width(b@),
        is_rectangular(product_of(a@, b@)),
{
}

/// Adding the zero matrix of the same shape gives the matrix back, and
/// every sum on the way is representable.
pub proof fn lemma_add_zeros<N: Element>(a: &Matrix<N>)
    requires
        a.wf(),
    ensures
        same_shape(a@, filled::<N>(a@.len(), width(a@), 0)),
        sum_fits(a@, filled::<N>(a@.len(), width(a@), 0)),
        sum_of(a@, filled::<N>(a@.len(), width(a@), 0)) == a@,
{
    let rows = a@;
    let z = filled::<N>(rows.len(), width(rows), 0);
    N::lemma_fits_zero_one();
    N::lemma_from_int(0);
    assert forall|i: int, j: int| 0 <= i < rows.len() && 0 <= j < rows[i].len() implies N::fits(
        #[trigger] rows[i][j].as_int() + z[i][j].as_int(),
    ) by {
        N::lemma_fits(rows[i][j]);
    }
    assert forall|i: int| 0 <= i < rows.len() implies #[trigger] sum_of(rows, z)[i] == rows[i] by {
        assert forall|j: int| 0 <= j < rows[i].len() implies #[trigger] sum_of(rows, z)[i][j] == rows[i][j] by {
            lemma_from_as_int(rows[i][j]);
        }
        assert(sum_of(rows, z)[i] =~= rows[i]);
    }
    assert(sum_of(rows, z) =~= rows);
}

/// Subtracting a matrix from itself gives the zero matrix of its shape,
/// and every difference on the way is representable.
pub proof fn lemma_sub_self<N: Element>(a: &Matrix<N>)
    requires
        a.wf(),
    ensures
        difference_fits(a@, a@),
        difference_of(a@, a@) == filled::<N>(a@.len(), width(a@), 0),
{
    let rows = a@;
    let z = filled::<N>(rows.len(), width(rows), 0);
    assert forall|i: int, j: int| 0 <= i < rows.len() && 0 <= j < rows[i].len() implies N::fits(
        #[trigger] rows[i][j].as_int() - rows[i][j].as_int(),
    ) by {
        N::lemma_fits_zero_one();
    }
    assert forall|i: int| 0 <= i < rows.len() implies #[trigger] difference_of(rows, rows)[i] == z[i] by {
        assert(difference_of(rows, rows)[i] =~= z[i]);
    }
    assert(difference_of(rows, rows) =~= z);
}

/// The diagonal of a square matrix is square, and taking the diagonal of
/// it changes nothing.
pub proof fn lemma_diagonal_idempotent<N: Element>(m: &Matrix<N>)
    requires
        m.wf(),
        m@.len() == width(m@),
    ensures
        diagonal_of(m@).len() == width(diagonal_of(m@)),
        is_rectangular(diagonal_of(m@)),
        diagonal_of(diagonal_of(m@)) == diagonal_of(m@),
{
    let d = diagonal_of(m@);
    assert forall|i: int| 0 <= i < d.len() implies #[trigger] diagonal_of(d)[i] == d[i] by {
        assert(diagonal_of(d)[i] =~= d[i]);
    }
    assert(diagonal_of(d) =~= d);
}

/// Row `i` of the matrix built from a table is row `i` of the table.
pub proof fn lemma_round_trip<N: Copy>(values: &Vec<Vec<N>>, m: &Matrix<N>, i: int)
    requires
        m.wf(),
        m@ == rows_of(values@),
        0 <= i < values@.len(),
    ensures
        m@[i] == values@[i]@,
{
}

} // verus!
