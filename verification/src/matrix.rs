use vstd::prelude::*;

use crate::flat::{lemma_flatten_take_next, lemma_flatten_uniform};

verus! {

/// The rows of a vector of row vectors, each taken by its view.
pub open spec fn rows_of<T>(v: Seq<Vec<T>>) -> Seq<Seq<T>> {
    v.map_values(|r: Vec<T>| r@)
}

/// At least one row, and every row as long as the first.
pub open spec fn is_rectangular<T>(rows: Seq<Seq<T>>) -> bool {
    &&& rows.len() > 0
    &&& forall|i: int| 0 <= i < rows.len() ==> #[trigger] rows[i].len() == rows[0].len()
}

/// Rows are rectangular exactly when there is at least one row and any two
/// rows have the same length; a single row always is.
pub proof fn lemma_rectangular_iff_equal_lengths<T>(rows: Seq<Seq<T>>)
    ensures
        is_rectangular(rows) <==> (rows.len() >= 1 && forall|i: int, j: int|
            0 <= i < rows.len() && 0 <= j < rows.len() ==> #[trigger] rows[i].len()
                == #[trigger] rows[j].len()),
        rows.len() == 1 ==> is_rectangular(rows),
{
    if rows.len() >= 1 && forall|i: int, j: int|
        0 <= i < rows.len() && 0 <= j < rows.len() ==> #[trigger] rows[i].len() == #[trigger] rows[j].len() {
        assert forall|i: int| 0 <= i < rows.len() implies #[trigger] rows[i].len() == rows[0].len() by {
            assert(rows[i].len() == rows[0].len());
        }
    }
}

/// A dense row-major matrix.
pub struct Matrix<T> {
    inner: Vec<Vec<T>>,
    width: usize,
    height: usize,
}

impl<T> Matrix<T> {
    /// The rows of the matrix.
    pub closed spec fn rows(&self) -> Seq<Seq<T>> {
        rows_of(self.inner@)
    }

    /// The recorded number of columns.
    pub closed spec fn spec_width(&self) -> nat {
        self.width as nat
    }

    /// The recorded number of rows.
    pub closed spec fn spec_height(&self) -> nat {
        self.height as nat
    }

    /// `height` rows, each of `width` items.
    pub open spec fn wf(&self) -> bool {
        &&& self.rows().len() == self.spec_height()
        &&& forall|i: int| 0 <= i < self.rows().len() ==> #[trigger] self.rows()[i].len() == self.spec_width()
    }

    /// Builds a matrix from its rows. There is one exactly when `data` holds at
    /// least one row and all rows have the same length; its width is that
    /// length and its height the number of rows.
    pub fn new(data: Vec<Vec<T>>) -> (r: Option<Self>)
        ensures
            r is Some <==> is_rectangular(rows_of(data@)),
            r is Some <==> (data@.len() >= 1 && forall|i: int, j: int|
                0 <= i < data@.len() && 0 <= j < data@.len() ==> #[trigger] data@[i]@.len()
                    == #[trigger] data@[j]@.len()),
            r matches Some(m) ==> {
                &&& m.rows() == rows_of(data@)
                &&& m.spec_width() == data@[0]@.len()
                &&& m.spec_height() == data@.len()
                &&& m.wf()
            },
    {
        proof {
            lemma_rectangular_iff_equal_lengths(rows_of(data@));
            assert forall|i: int| 0 <= i < data@.len() implies #[trigger] rows_of(data@)[i].len()
                == data@[i]@.len() by {}
        }
        let height = data.len();
        let mut width: Option<usize> = None;
        let mut i: usize = 0;
        while i < data.len()
            invariant
                0 <= i <= data.len(),
                height == data.len(),
                (i == 0) == (width is None),
                width matches Some(w) ==> w == data@[0]@.len() && forall|k: int|
                    0 <= k < i ==> #[trigger] data@[k]@.len() == w,
            decreases data.len() - i,
        {
            match width {
                None => {
                    width = Some(data[i].len());
                },
                Some(width_inner) => {
                    if width_inner != data[i].len() {
                        assert(rows_of(data@)[i as int].len() != rows_of(data@)[0].len());
                        return None;
                    }
                },
            }
            i += 1;
        }
        match width {
            None => None,
            Some(w) => {
                assert(rows_of(data@).len() == data@.len());
                Some(Matrix { inner: data, width: w, height })
            },
        }
    }

    /// All items, row after row.
    pub fn flatten(&self) -> (r: Vec<T>)
        where
            T: Copy,
        ensures
            r@ == self.rows().flatten(),
    {
        let mut out: Vec<T> = Vec::new();
        let mut i: usize = 0;
        while i < self.inner.len()
            invariant
                0 <= i <= self.inner@.len(),
                out@ == self.rows().take(i as int).flatten(),
            decreases self.inner@.len() - i,
        {
            let row = &self.inner[i];
            let mut j: usize = 0;
            while j < row.len()
                invariant
                    0 <= j <= row@.len(),
                    i < self.inner@.len(),
                    row@ == self.rows()[i as int],
                    out@ == self.rows().take(i as int).flatten() + row@.take(j as int),
                decreases row@.len() - j,
            {
                out.push(row[j]);
                assert(row@.take(j + 1) =~= row@.take(j as int).push(row@[j as int]));
                j += 1;
            }
            assert(row@.take(j as int) =~= row@);
            proof {
                lemma_flatten_take_next(self.rows(), i as int);
            }
            i += 1;
        }
        assert(self.rows().take(i as int) =~= self.rows());
        out
    }

    /// In a well-formed matrix the flattened items number `width * height`,
    /// and item `c` of row `r` is at position `r * width + c`.
    pub proof fn lemma_flatten_layout(&self)
        requires
            self.wf(),
        ensures
            self.rows().flatten().len() == self.spec_height() * self.spec_width(),
            forall|r: int, c: int|
                0 <= r < self.spec_height() && 0 <= c < self.spec_width() ==> #[trigger] self.rows().flatten()[r
                    * self.spec_width() + c] == self.rows()[r][c],
    {
        lemma_flatten_uniform(self.rows(), self.spec_width());
    }
}

} // verus!
