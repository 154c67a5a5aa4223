use vstd::prelude::*;

verus! {

/// A rectangular matrix of entries of type `T`, stored row by row.
///
/// Only the index structure lives here: building, reading, writing,
/// transposing and removing a row and a column. The arithmetic on entries
/// belongs to whoever picks `T`.
#[derive(Clone, Debug)]
pub struct Matrix<T> {
    n_columns: usize,
    vals: Vec<Vec<T>>,
}

impl<T> View for Matrix<T> {
    /// The rows of the matrix, top to bottom.
    type V = Seq<Seq<T>>;

    closed spec fn view(&self) -> Seq<Seq<T>> {
        self.vals@.map_values(|row: Vec<T>| row@)
    }
}

/// Every row of `rows` holds `n` entries.
pub open spec fn all_rows_have_len<T>(rows: Seq<Seq<T>>, n: nat) -> bool {
    forall|i: int| 0 <= i < rows.len() ==> #[trigger] rows[i].len() == n
}

/// Index of the entry of the larger matrix that lands at index `i` once index
/// `removed` is taken out.
pub open spec fn skip_index(i: int, removed: int) -> int {
    if i < removed {
        i
    } else {
        i + 1
    }
}

impl<T: Copy> Matrix<T> {
    /// Number of columns.
    pub closed spec fn spec_n_columns(&self) -> nat {
        self.n_columns as nat
    }

    /// Number of rows.
    pub open spec fn spec_n_rows(&self) -> nat {
        self@.len()
    }

    /// Every row holds `spec_n_columns()` entries.
    pub open spec fn inv(&self) -> bool {
        all_rows_have_len(self@, self.spec_n_columns())
    }

    /// The entry in row `i`, column `j`.
    pub open spec fn spec_get(&self, i: int, j: int) -> T {
        self@[i][j]
    }

    /// The matrix whose rows are `rows`; `None` when the rows differ in
    /// length. With no rows it has no columns either.
    pub fn from_rows(rows: Vec<Vec<T>>) -> (r: Option<Matrix<T>>)
        ensures
            r is Some <==> (rows@.len() == 0 || all_rows_have_len(
                rows@.map_values(|row: Vec<T>| row@),
                rows@[0]@.len(),
            )),
            r matches Some(m) ==> m.inv() && m@ == rows@.map_values(|row: Vec<T>| row@)
                && m.spec_n_columns() == (if rows@.len() == 0 { 0 } else { rows@[0]@.len() }),
    {
        let ghost view = rows@.map_values(|row: Vec<T>| row@);
        if rows.len() == 0 {
            return Some(Matrix { n_columns: 0, vals: rows });
        }
        let n_columns = rows[0].len();
        let mut i: usize = 0;
        while i < rows.len()
            invariant
                i <= rows@.len(),
                n_columns == rows@[0]@.len(),
                view == rows@.map_values(|row: Vec<T>| row@),
                forall|k: int| 0 <= k < i ==> #[trigger] view[k].len() == n_columns,
            decreases rows@.len() - i,
        {
            if rows[i].len() != n_columns {
                assert(view[i as int].len() != n_columns);
                return None;
            }
            i = i + 1;
        }
        Some(Matrix { n_columns, vals: rows })
    }

    /// The `dimensions` by `dimensions` matrix with `one` on the diagonal and
    /// `zero` elsewhere.
    pub fn identity_matrix(dimensions: usize, zero: T, one: T) -> (r: Matrix<T>)
        ensures
            r.inv(),
            r.spec_n_rows() == dimensions,
            r.spec_n_columns() == dimensions,
            forall|i: int, j: int|
                0 <= i < dimensions && 0 <= j < dimensions ==> #[trigger] r.spec_get(i, j) == (
                if i == j {
                    one
                } else {
                    zero
                }),
    {
        let mut vals: Vec<Vec<T>> = Vec::with_capacity(dimensions);
        let mut i: usize = 0;
        while i < dimensions
            invariant
                i <= dimensions,
                vals@.len() == i,
                forall|k: int| 0 <= k < i ==> #[trigger] vals@[k]@ == Seq::new(
                    dimensions as nat,
                    |j: int| if k == j { one } else { zero },
                ),
            decreases dimensions - i,
        {
            let mut row: Vec<T> = Vec::with_capacity(dimensions);
            let mut j: usize = 0;
            while j < dimensions
                invariant
                    i < dimensions,
                    j <= dimensions,
                    row@ == Seq::new(j as nat, |l: int| if i == l { one } else { zero }),
                decreases dimensions - j,
            {
                if i == j {
                    row.push(one);
                } else {
                    row.push(zero);
                }
                j = j + 1;
                assert(row@ =~= Seq::new(j as nat, |l: int| if i == l { one } else { zero }));
            }
            vals.push(row);
            i = i + 1;
        }
        let r = Matrix { n_columns: dimensions, vals };
        assert forall|k: int| 0 <= k < r@.len() implies #[trigger] r@[k].len() == dimensions by {
            assert(r@[k] == vals@[k]@);
        }
        assert forall|a: int, b: int|
            0 <= a < dimensions && 0 <= b < dimensions implies #[trigger] r.spec_get(a, b) == (
            if a == b {
                one
            } else {
                zero
            }) by {
            assert(r@[a] == vals@[a]@);
        }
        r
    }

    /// Number of rows.
    pub fn n_rows(&self) -> (r: usize)
        ensures
            r == self.spec_n_rows(),
    {
        self.vals.len()
    }

    /// Number of columns.
    pub fn n_columns(&self) -> (r: usize)
        ensures
            r == self.spec_n_columns(),
    {
        self.n_columns
    }

    /// The entry in row `i`, column `j`.
    pub fn get(&self, i: usize, j: usize) -> (r: T)
        requires
            self.inv(),
            i < self.spec_n_rows(),
            j < self.spec_n_columns(),
        ensures
            r == self.spec_get(i as int, j as int),
    {
        assert(self@[i as int].len() == self.spec_n_columns());
        self.vals[i][j]
    }

    /// Replaces the entry in row `i`, column `j` by `v`.
    pub fn set(&mut self, i: usize, j: usize, v: T)
        requires
            old(self).inv(),
            i < old(self).spec_n_rows(),
            j < old(self).spec_n_columns(),
        ensures
            final(self).inv(),
            final(self).spec_n_columns() == old(self).spec_n_columns(),
            final(self)@ == old(self)@.update(i as int, old(self)@[i as int].update(j as int, v)),
    {
        let ghost before = self@;
        assert(self@[i as int].len() == self.spec_n_columns());
        self.vals[i].set(j, v);
        assert(self@ =~= before.update(i as int, before[i as int].update(j as int, v)));
        assert forall|k: int| 0 <= k < self@.len() implies #[trigger] self@[k].len()
            == self.spec_n_columns() by {
            if k != i {
                assert(self@[k] == before[k]);
            }
        }
    }

    /// The transpose: entry `(j, i)` of the result is entry `(i, j)` of `self`.
    pub fn transpose(&self) -> (r: Matrix<T>)
        requires
            self.inv(),
        ensures
            r.inv(),
            r.spec_n_rows() == self.spec_n_columns(),
            r.spec_n_columns() == self.spec_n_rows(),
            forall|i: int, j: int|
                0 <= i < r.spec_n_rows() && 0 <= j < r.spec_n_columns() ==> #[trigger] r.spec_get(i, j)
                    == self.spec_get(j, i),
    {
        let n_rows = self.vals.len();
        let mut vals: Vec<Vec<T>> = Vec::with_capacity(self.n_columns);
        let mut j: usize = 0;
        while j < self.n_columns
            invariant
                self.inv(),
                n_rows == self@.len(),
                j <= self.n_columns,
                vals@.len() == j,
                forall|k: int| 0 <= k < j ==> #[trigger] vals@[k]@ == Seq::new(
                    n_rows as nat,
                    |i: int| self@[i][k],
                ),
            decreases self.n_columns - j,
        {
            let mut row: Vec<T> = Vec::with_capacity(n_rows);
            let mut i: usize = 0;
            while i < n_rows
                invariant
                    self.inv(),
                    n_rows == self@.len(),
                    j < self.n_columns,
                    i <= n_rows,
                    row@ == Seq::new(i as nat, |l: int| self@[l][j as int]),
                decreases n_rows - i,
            {
                assert(self@[i as int].len() == self.n_columns);
                assert(self@[i as int] == self.vals@[i as int]@);
                row.push(self.vals[i][j]);
                i = i + 1;
                assert(row@ =~= Seq::new(i as nat, |l: int| self@[l][j as int]));
            }
            vals.push(row);
            j = j + 1;
        }
        let r = Matrix { n_columns: n_rows, vals };
        assert forall|k: int| 0 <= k < r@.len() implies #[trigger] r@[k].len() == n_rows by {
            assert(r@[k] == vals@[k]@);
        }
        assert forall|a: int, b: int|
            0 <= a < r.spec_n_rows() && 0 <= b < r.spec_n_columns() implies #[trigger] r.spec_get(a, b)
            == self.spec_get(b, a) by {
            assert(r@[a] == vals@[a]@);
        }
        r
    }

    /// The matrix left when row `row` and column `column` are taken out;
    /// the rows and columns after them move up and left by one.
    pub fn submatrix(&self, row: usize, column: usize) -> (r: Matrix<T>)
        requires
            self.inv(),
            row < self.spec_n_rows(),
            column < self.spec_n_columns(),
        ensures
            r.inv(),
            r.spec_n_rows() == self.spec_n_rows() - 1,
            r.spec_n_columns() == self.spec_n_columns() - 1,
            forall|i: int, j: int|
                0 <= i < r.spec_n_rows() && 0 <= j < r.spec_n_columns() ==> #[trigger] r.spec_get(i, j)
                    == self.spec_get(skip_index(i, row as int), skip_index(j, column as int)),
    {
        let n_rows = self.vals.len();
        let n_columns = self.n_columns;
        let mut vals: Vec<Vec<T>> = Vec::with_capacity(n_rows - 1);
        let mut i: usize = 0;
        while i < n_rows
            invariant
                self.inv(),
                n_rows == self@.len(),
                n_columns == self.spec_n_columns(),
                row < n_rows,
                column < n_columns,
                i <= n_rows,
                vals@.len() == (if i <= row { i as int } else { i - 1 }),
                forall|k: int| 0 <= k < vals@.len() ==> #[trigger] vals@[k]@ == Seq::new(
                    (n_columns - 1) as nat,
                    |l: int| self@[skip_index(k, row as int)][skip_index(l, column as int)],
                ),
            decreases n_rows - i,
        {
            if i != row {
                assert(self@[i as int].len() == n_columns);
                assert(self@[i as int] == self.vals@[i as int]@);
                let mut new_row: Vec<T> = Vec::with_capacity(n_columns - 1);
                let mut j: usize = 0;
                while j < n_columns
                    invariant
                        i < n_rows,
                        n_rows == self@.len(),
                        n_rows == self.vals@.len(),
                        n_columns == self@[i as int].len(),
                        self@[i as int] == self.vals@[i as int]@,
                        column < n_columns,
                        j <= n_columns,
                        new_row@.len() == (if j <= column { j as int } else { j - 1 }),
                        forall|l: int| 0 <= l < new_row@.len() ==> #[trigger] new_row@[l]
                            == self@[i as int][skip_index(l, column as int)],
                    decreases n_columns - j,
                {
                    if j != column {
                        new_row.push(self.vals[i][j]);
                    }
                    j = j + 1;
                }
                let ghost k = vals@.len() as int;
                assert(skip_index(k, row as int) == i);
                assert(new_row@ =~= Seq::new(
                    (n_columns - 1) as nat,
                    |l: int| self@[skip_index(k, row as int)][skip_index(l, column as int)],
                ));
                vals.push(new_row);
            }
            i = i + 1;
        }
        let r = Matrix { n_columns: n_columns - 1, vals };
        assert forall|k: int| 0 <= k < r@.len() implies #[trigger] r@[k].len() == n_columns - 1 by {
            assert(r@[k] == vals@[k]@);
        }
        assert forall|a: int, b: int|
            0 <= a < r.spec_n_rows() && 0 <= b < r.spec_n_columns() implies #[trigger] r.spec_get(a, b)
            == self.spec_get(skip_index(a, row as int), skip_index(b, column as int)) by {
            assert(r@[a] == vals@[a]@);
        }
        r
    }
}

} // verus!
