use vstd::prelude::*;

use crate::flat::{lemma_flatten_take_next, lemma_flatten_uniform};
use crate::matrix::rows_of;

verus! {

/// `v` is a value that `T::default()` can return.
pub open spec fn is_default<T: Default>(v: T) -> bool {
    call_ensures(T::default, (), v)
}

/// The rows that pairing `weights` with `biases` keeps: the pairs stop where
/// the shorter of the two ends, and the first pair only fixes the width.
pub open spec fn kept_pairs<T>(weights: Seq<Seq<T>>, biases: Seq<T>) -> Seq<(Seq<T>, T)> {
    let n = if weights.len() <= biases.len() { weights.len() } else { biases.len() };
    Seq::new((n - 1) as nat, |k: int| (weights[k + 1], biases[k + 1]))
}

/// Number of pairs that pairing `weights` with `biases` visits.
pub open spec fn pair_count<T>(weights: Seq<Seq<T>>, biases: Seq<T>) -> nat {
    if weights.len() <= biases.len() { weights.len() } else { biases.len() }
}

/// The pairing accepts the rows: at least one pair is visited, and every
/// visited row is as long as the first one.
pub open spec fn pairs_accepted<T>(weights: Seq<Seq<T>>, biases: Seq<T>) -> bool {
    &&& pair_count(weights, biases) > 0
    &&& forall|k: int|
        1 <= k < pair_count(weights, biases) ==> #[trigger] weights[k].len() == weights[0].len()
}

/// Pairing keeps every visited pair after the first and nothing else: as
/// many pairs as the shorter input has items, less one, pair `k` being weight
/// row `k + 1` with bias `k + 1`. The pairing is accepted exactly when both
/// inputs are non-empty and every row visited after the first is as long as
/// the first.
pub proof fn lemma_kept_pairs_are_later_pairs<T>(weights: Seq<Seq<T>>, biases: Seq<T>)
    ensures
        pairs_accepted(weights, biases) <==> (weights.len() >= 1 && biases.len() >= 1 && forall|k: int|
            1 <= k && k < weights.len() && k < biases.len() ==> #[trigger] weights[k].len()
                == weights[0].len()),
        weights.len() >= 1 && biases.len() >= 1 ==> {
            &&& kept_pairs(weights, biases).len() + 1 <= weights.len()
            &&& kept_pairs(weights, biases).len() + 1 <= biases.len()
            &&& (kept_pairs(weights, biases).len() + 1 == weights.len()
                || kept_pairs(weights, biases).len() + 1 == biases.len())
            &&& forall|k: int|
                0 <= k < kept_pairs(weights, biases).len() ==> #[trigger] kept_pairs(weights, biases)[k]
                    == (weights[k + 1], biases[k + 1])
        },
{
}

/// A weight matrix whose rows each carry the bias of their output neuron.
#[derive(Debug)]
pub struct WeightAndBiasMatrix<T> {
    inner: Vec<(Vec<T>, T)>,
    width: usize,
    height: usize,
}

/// A row of weights followed by its bias.
pub open spec fn row_with_bias<T>(e: (Seq<T>, T)) -> Seq<T> {
    e.0.push(e.1)
}

/// Copies a row item by item.
fn copy_row<T: Copy>(row: &Vec<T>) -> (r: Vec<T>)
    ensures
        r@ == row@,
{
    let mut out: Vec<T> = Vec::new();
    let mut j: usize = 0;
    while j < row.len()
        invariant
            0 <= j <= row@.len(),
            out@ == row@.take(j as int),
        decreases row@.len() - j,
    {
        out.push(row[j]);
        assert(row@.take(j + 1) =~= row@.take(j as int).push(row@[j as int]));
        j += 1;
    }
    assert(row@.take(j as int) =~= row@);
    out
}

impl<T> WeightAndBiasMatrix<T> {
    /// The rows, each as its weights and its bias.
    pub closed spec fn entries(&self) -> Seq<(Seq<T>, T)> {
        self.inner@.map_values(|e: (Vec<T>, T)| (e.0@, e.1))
    }

    /// The recorded number of weights per row.
    pub closed spec fn spec_width(&self) -> nat {
        self.width as nat
    }

    /// The recorded number of rows.
    pub closed spec fn spec_height(&self) -> nat {
        self.height as nat
    }

    /// The weight rows.
    pub open spec fn weight_rows(&self) -> Seq<Seq<T>> {
        self.entries().map_values(|e: (Seq<T>, T)| e.0)
    }

    /// The biases, one per row.
    pub open spec fn bias_values(&self) -> Seq<T> {
        self.entries().map_values(|e: (Seq<T>, T)| e.1)
    }

    /// Each row's weights followed by its bias, row after row.
    pub open spec fn flat_layout(&self) -> Seq<T> {
        self.entries().map_values(|e: (Seq<T>, T)| row_with_bias(e)).flatten()
    }

    /// The value of `size()`: one slot per weight plus one per row.
    pub open spec fn spec_size(&self) -> nat {
        (self.spec_width() + 1) * self.spec_height()
    }

    /// Every stored row holds `width` weights. Every matrix keeps this.
    #[verifier::type_invariant]
    pub open spec fn rows_have_width(&self) -> bool {
        forall|i: int|
            0 <= i < self.entries().len() ==> #[trigger] self.entries()[i].0.len() == self.spec_width()
    }

    /// `height` rows of `width` weights each.
    pub open spec fn wf(&self) -> bool {
        &&& self.entries().len() == self.spec_height()
        &&& self.rows_have_width()
    }

    /// A `width` by `height` matrix whose weights and biases are all the
    /// element type's default value.
    pub fn new(width: usize, height: usize) -> (r: Self)
        where
            T: Copy + Default,
        ensures
            r.wf(),
            r.spec_width() == width,
            r.spec_height() == height,
            forall|i: int, j: int|
                0 <= i < height && 0 <= j < width ==> is_default(#[trigger] r.entries()[i].0[j]),
            forall|i: int| 0 <= i < height ==> is_default(#[trigger] r.entries()[i].1),
    {
        let zero = T::default();
        let mut inner: Vec<(Vec<T>, T)> = Vec::new();
        let mut i: usize = 0;
        while i < height
            invariant
                0 <= i <= height,
                is_default(zero),
                inner@.len() == i,
                forall|k: int| 0 <= k < i ==> #[trigger] inner@[k].0@.len() == width,
                forall|k: int, j: int| 0 <= k < i && 0 <= j < width ==> #[trigger] inner@[k].0@[j] == zero,
                forall|k: int| 0 <= k < i ==> #[trigger] inner@[k].1 == zero,
            decreases height - i,
        {
            let mut row: Vec<T> = Vec::new();
            let mut j: usize = 0;
            while j < width
                invariant
                    0 <= j <= width,
                    row@.len() == j,
                    forall|c: int| 0 <= c < j ==> #[trigger] row@[c] == zero,
                decreases width - j,
            {
                row.push(zero);
                j += 1;
            }
            inner.push((row, zero));
            i += 1;
        }
        let r = WeightAndBiasMatrix { inner, width, height };
        assert forall|k: int| 0 <= k < r.entries().len() implies #[trigger] r.entries()[k].0.len()
            == r.spec_width() by {
            assert(r.entries()[k].0 == inner@[k].0@);
        }
        assert forall|k: int, j: int| 0 <= k < height && 0 <= j < width implies is_default(
            #[trigger] r.entries()[k].0[j],
        ) by {
            assert(r.entries()[k].0 == inner@[k].0@);
        }
        r
    }

    /// Pairs each weight row with the bias at the same index, stopping at the
    /// end of the shorter input. The first row visited only fixes the width and
    /// is not kept; every later visited row must have that width, or there is
    /// no matrix. There is none either when no row is visited. The height is
    /// the number of weight rows given.
    pub fn from_nested_vec(weights: Vec<Vec<T>>, biases: Vec<T>) -> (r: Option<Self>)
        where
            T: Copy,
        ensures
            r is Some <==> pairs_accepted(rows_of(weights@), biases@),
            r is Some <==> (weights@.len() >= 1 && biases@.len() >= 1 && forall|k: int|
                1 <= k && k < weights@.len() && k < biases@.len() ==> #[trigger] weights@[k]@.len()
                    == weights@[0]@.len()),
            r matches Some(m) ==> {
                &&& m.entries().len() + 1 <= weights@.len()
                &&& m.entries().len() + 1 <= biases@.len()
                &&& (m.entries().len() + 1 == weights@.len() || m.entries().len() + 1 == biases@.len())
                &&& forall|k: int|
                    0 <= k < m.entries().len() ==> #[trigger] m.entries()[k] == (
                        weights@[k + 1]@,
                        biases@[k + 1],
                    )
            },
            r matches Some(m) ==> {
                &&& m.rows_have_width()
                &&& m.entries() == kept_pairs(rows_of(weights@), biases@)
                &&& m.spec_width() == weights@[0]@.len()
                &&& m.spec_height() == weights@.len()
            },
    {
        proof {
            lemma_kept_pairs_are_later_pairs(rows_of(weights@), biases@);
        }
        let height = weights.len();
        let n = if weights.len() <= biases.len() { weights.len() } else { biases.len() };
        let ghost w = rows_of(weights@);
        let mut width: Option<usize> = None;
        let mut inner: Vec<(Vec<T>, T)> = Vec::new();
        let mut i: usize = 0;
        while i < n
            invariant
                0 <= i <= n,
                n == pair_count(w, biases@),
                w == rows_of(weights@),
                n <= weights@.len(),
                n <= biases@.len(),
                (i == 0) == (width is None),
                width matches Some(wd) ==> wd == weights@[0]@.len() && forall|k: int|
                    0 <= k < i ==> #[trigger] weights@[k]@.len() == wd,
                i > 0 ==> inner@.len() == i - 1,
                i == 0 ==> inner@.len() == 0,
                forall|k: int|
                    0 <= k < inner@.len() ==> #[trigger] inner@[k].0@ == weights@[k + 1]@
                        && inner@[k].1 == biases@[k + 1],
            decreases n - i,
        {
            match width {
                None => {
                    width = Some(weights[i].len());
                },
                Some(width_inner) => {
                    if width_inner != weights[i].len() {
                        assert(w[i as int].len() != w[0].len());
                        return None;
                    }
                    let row = copy_row(&weights[i]);
                    inner.push((row, biases[i]));
                },
            }
            i += 1;
        }
        match width {
            None => None,
            Some(wd) => {
                let r = WeightAndBiasMatrix { inner, width: wd, height };
                assert(r.entries() =~= kept_pairs(w, biases@));
                Some(r)
            },
        }
    }

    /// Number of weights per row.
    pub fn width(&self) -> (r: usize)
        ensures
            r == self.spec_width(),
    {
        self.width
    }

    /// Number of rows.
    pub fn height(&self) -> (r: usize)
        ensures
            r == self.spec_height(),
    {
        self.height
    }

    /// Number of weight and bias slots: `(width + 1) * height`.
    pub fn size(&self) -> (r: usize)
        requires
            self.spec_width() + 1 <= usize::MAX,
            self.spec_size() <= usize::MAX,
        ensures
            r == self.spec_size(),
    {
        (self.width + 1) * self.height
    }

    /// Number of weight slots: `width * height`.
    pub fn size_weights(&self) -> (r: usize)
        requires
            self.spec_width() * self.spec_height() <= usize::MAX,
        ensures
            r == self.spec_width() * self.spec_height(),
    {
        self.width * self.height
    }

    /// Number of bias slots: one per row.
    pub fn size_biases(&self) -> (r: usize)
        ensures
            r == self.spec_height(),
    {
        self.height
    }

    /// Each row's weights followed by its bias, row after row: stored row
    /// `j` takes the `width + 1` slots from `j * (width + 1)`, its weights
    /// first and its bias last.
    pub fn flat_weights_and_biases(&self) -> (r: Vec<T>)
        where
            T: Copy,
        ensures
            r@ == self.flat_layout(),
            self.rows_have_width(),
            r@.len() == self.entries().len() * (self.spec_width() + 1),
            forall|j: int, c: int|
                0 <= j < self.entries().len() && 0 <= c < self.spec_width() ==> #[trigger] r@[j * (
                self.spec_width() + 1) + c] == self.weight_rows()[j][c],
            forall|j: int|
                0 <= j < self.entries().len() ==> #[trigger] r@[j * (self.spec_width() + 1)
                    + self.spec_width()] == self.bias_values()[j],
    {
        proof {
            use_type_invariant(self);
            self.lemma_layout();
        }
        let ghost rows = self.entries().map_values(|e: (Seq<T>, T)| row_with_bias(e));
        let mut out: Vec<T> = Vec::new();
        let mut i: usize = 0;
        while i < self.inner.len()
            invariant
                0 <= i <= self.inner@.len(),
                rows == self.entries().map_values(|e: (Seq<T>, T)| row_with_bias(e)),
                out@ == rows.take(i as int).flatten(),
            decreases self.inner@.len() - i,
        {
            let row = &self.inner[i].0;
            let mut j: usize = 0;
            while j < row.len()
                invariant
                    0 <= j <= row@.len(),
                    i < self.inner@.len(),
                    row@ == self.inner@[i as int].0@,
                    out@ == rows.take(i as int).flatten() + row@.take(j as int),
                decreases row@.len() - j,
            {
                out.push(row[j]);
                assert(row@.take(j + 1) =~= row@.take(j as int).push(row@[j as int]));
                j += 1;
            }
            out.push(self.inner[i].1);
            assert(row@.take(j as int) =~= row@);
            assert(rows[i as int] == row@.push(self.inner@[i as int].1));
            proof {
                lemma_flatten_take_next(rows, i as int);
            }
            i += 1;
        }
        assert(rows.take(i as int) =~= rows);
        out
    }

    /// The weight rows, without biases; each holds `width` weights.
    pub fn weights(&self) -> (r: Vec<Vec<T>>)
        where
            T: Copy,
        ensures
            rows_of(r@) == self.weight_rows(),
            r@.len() == self.entries().len(),
            forall|j: int| 0 <= j < r@.len() ==> #[trigger] r@[j]@.len() == self.spec_width(),
            forall|j: int| 0 <= j < r@.len() ==> #[trigger] r@[j]@ == self.entries()[j].0,
    {
        proof {
            use_type_invariant(self);
        }
        let mut out: Vec<Vec<T>> = Vec::new();
        let mut i: usize = 0;
        while i < self.inner.len()
            invariant
                0 <= i <= self.inner@.len(),
                out@.len() == i,
                forall|k: int| 0 <= k < i ==> #[trigger] out@[k]@ == self.inner@[k].0@,
            decreases self.inner@.len() - i,
        {
            out.push(copy_row(&self.inner[i].0));
            i += 1;
        }
        assert(rows_of(out@) =~= self.weight_rows());
        assert forall|j: int| 0 <= j < out@.len() implies #[trigger] out@[j]@.len() == self.spec_width() by {
            assert(self.entries()[j].0 == self.inner@[j].0@);
        }
        out
    }

    /// The weights, row after row, without biases: `width` per stored row.
    pub fn flat_weights(&self) -> (r: Vec<T>)
        where
            T: Copy,
        ensures
            r@ == self.weight_rows().flatten(),
            r@.len() == self.entries().len() * self.spec_width(),
    {
        proof {
            use_type_invariant(self);
            self.lemma_layout();
        }
        let ghost rows = self.weight_rows();
        let mut out: Vec<T> = Vec::new();
        let mut i: usize = 0;
        while i < self.inner.len()
            invariant
                0 <= i <= self.inner@.len(),
                rows == self.weight_rows(),
                out@ == rows.take(i as int).flatten(),
            decreases self.inner@.len() - i,
        {
            let row = &self.inner[i].0;
            let mut j: usize = 0;
            while j < row.len()
                invariant
                    0 <= j <= row@.len(),
                    i < self.inner@.len(),
                    row@ == self.inner@[i as int].0@,
                    out@ == rows.take(i as int).flatten() + row@.take(j as int),
                decreases row@.len() - j,
            {
                out.push(row[j]);
                assert(row@.take(j + 1) =~= row@.take(j as int).push(row@[j as int]));
                j += 1;
            }
            assert(row@.take(j as int) =~= row@);
            assert(rows[i as int] == row@);
            proof {
                lemma_flatten_take_next(rows, i as int);
            }
            i += 1;
        }
        assert(rows.take(i as int) =~= rows);
        out
    }

    /// The biases, one per stored row.
    pub fn biases(&self) -> (r: Vec<T>)
        where
            T: Copy,
        ensures
            r@ == self.bias_values(),
            r@.len() == self.entries().len(),
            forall|j: int| 0 <= j < r@.len() ==> #[trigger] r@[j] == self.entries()[j].1,
    {
        let mut out: Vec<T> = Vec::new();
        let mut i: usize = 0;
        while i < self.inner.len()
            invariant
                0 <= i <= self.inner@.len(),
                out@.len() == i,
                forall|k: int| 0 <= k < i ==> #[trigger] out@[k] == self.inner@[k].1,
            decreases self.inner@.len() - i,
        {
            out.push(self.inner[i].1);
            i += 1;
        }
        assert(out@ =~= self.bias_values());
        out
    }
    /// Overwrites every weight, row after row, with the next value of
    /// `values`; the biases, the width and the height stay as they are.
    pub fn fill(&mut self, values: &Vec<T>)
        where
            T: Copy,
        requires
            values@.len() == old(self).weight_rows().flatten().len(),
        ensures
            final(self).weight_rows().flatten() == values@,
            final(self).entries().len() == old(self).entries().len(),
            forall|r: int|
                0 <= r < final(self).entries().len() ==> #[trigger] final(self).entries()[r].0.len()
                    == old(self).entries()[r].0.len(),
            final(self).bias_values() == old(self).bias_values(),
            forall|j: int|
                0 <= j < final(self).entries().len() ==> #[trigger] final(self).entries()[j].1 == old(
                    self,
                ).entries()[j].1,
            old(self).rows_have_width() ==> final(self).rows_have_width(),
            final(self).spec_width() == old(self).spec_width(),
            final(self).spec_height() == old(self).spec_height(),
    {
        proof {
            use_type_invariant(&*self);
        }
        let ghost old_rows = self.weight_rows();
        let mut inner: Vec<(Vec<T>, T)> = Vec::new();
        let mut pos: usize = 0;
        let mut i: usize = 0;
        while i < self.inner.len()
            invariant
                0 <= i <= self.inner@.len(),
                old_rows == self.weight_rows(),
                self.entries() == old(self).entries(),
                values@.len() == old_rows.flatten().len(),
                inner@.len() == i,
                pos == old_rows.take(i as int).flatten().len(),
                inner@.map_values(|e: (Vec<T>, T)| e.0@).flatten() == values@.take(pos as int),
                forall|k: int| 0 <= k < i ==> #[trigger] inner@[k].0@.len() == old_rows[k].len(),
                forall|k: int| 0 <= k < i ==> #[trigger] inner@[k].1 == self.inner@[k].1,
            decreases self.inner@.len() - i,
        {
            proof {
                lemma_flatten_take_next(old_rows, i as int);
                crate::flat::lemma_flatten_split(old_rows, i as int);
            }
            let len = self.inner[i].0.len();
            assert(old_rows[i as int].len() == len);
            assert(pos + len <= values.len());
            let mut row: Vec<T> = Vec::new();
            let mut j: usize = 0;
            while j < len
                invariant
                    0 <= j <= len,
                    pos + len <= values.len(),
                    row@ == values@.subrange(pos as int, pos + j),
                decreases len - j,
            {
                row.push(values[pos + j]);
                assert(values@.subrange(pos as int, pos + j + 1) =~= values@.subrange(
                    pos as int,
                    pos + j,
                ).push(values@[pos + j]));
                j += 1;
            }
            let ghost before = inner@;
            inner.push((row, self.inner[i].1));
            proof {
                let f = |e: (Vec<T>, T)| e.0@;
                assert(inner@.map_values(f) =~= before.map_values(f).push(row@));
                before.map_values(f).lemma_flatten_push(row@);
                assert(values@.take(pos as int) + values@.subrange(pos as int, pos + len) =~= values@.take(
                    pos + len,
                ));
            }
            pos = pos + len;
            i += 1;
        }
        let ghost new_inner = inner@;
        self.inner = inner;
        proof {
            assert(old_rows.take(i as int) =~= old_rows);
            assert(values@.take(pos as int) =~= values@);
            assert(self.weight_rows() =~= new_inner.map_values(|e: (Vec<T>, T)| e.0@));
            assert(self.bias_values() =~= old(self).bias_values());
        }
    }

    /// Whenever every stored row has the recorded width `w`, the flat layout
    /// has `w + 1` slots per stored row: row `r` occupies the slots from
    /// `r * (w + 1)`, its weights first and its bias last. The weights alone
    /// fill `w` slots per stored row and there is one bias per stored row.
    /// When the matrix is moreover well formed, these counts are `size()`,
    /// `size_weights()` and `size_biases()`, and the last two add up to the
    /// first.
    pub proof fn lemma_layout(&self)
        requires
            self.rows_have_width(),
        ensures
            self.flat_layout().len() == self.entries().len() * (self.spec_width() + 1),
            forall|r: int, c: int|
                0 <= r < self.entries().len() && 0 <= c < self.spec_width() ==> #[trigger] self.flat_layout()[r
                    * (self.spec_width() + 1) + c] == self.entries()[r].0[c],
            forall|r: int|
                0 <= r < self.entries().len() ==> #[trigger] self.flat_layout()[r * (self.spec_width() + 1)
                    + self.spec_width()] == self.entries()[r].1,
            self.weight_rows().flatten().len() == self.entries().len() * self.spec_width(),
            self.bias_values().len() == self.entries().len(),
            self.spec_size() == self.spec_width() * self.spec_height() + self.spec_height(),
            self.wf() ==> self.flat_layout().len() == self.spec_size(),
            self.wf() ==> self.weight_rows().flatten().len() == self.spec_width() * self.spec_height(),
    {
        let w = self.spec_width();
        let h = self.spec_height();
        let n = self.entries().len();
        let rows = self.entries().map_values(|e: (Seq<T>, T)| row_with_bias(e));
        assert forall|r: int| 0 <= r < rows.len() implies #[trigger] rows[r].len() == w + 1 by {
            assert(rows[r] == self.entries()[r].0.push(self.entries()[r].1));
        }
        lemma_flatten_uniform(rows, w + 1);
        assert forall|r: int| 0 <= r < self.weight_rows().len() implies #[trigger] self.weight_rows()[r].len()
            == w by {
            assert(self.weight_rows()[r] == self.entries()[r].0);
        }
        lemma_flatten_uniform(self.weight_rows(), w);
        assert(n * (w + 1) == (w + 1) * n) by (nonlinear_arith);
        assert(w * h + h == (w + 1) * h) by (nonlinear_arith);
        assert(n * w == w * n) by (nonlinear_arith);
        assert(h * w == w * h) by (nonlinear_arith);
        assert forall|r: int, c: int| 0 <= r < n && 0 <= c < w implies #[trigger] self.flat_layout()[r * (
        w + 1) + c] == self.entries()[r].0[c] by {
            assert(rows[r] == self.entries()[r].0.push(self.entries()[r].1));
            assert(self.flat_layout()[r * (w + 1) + c] == rows[r][c]);
        }
        assert forall|r: int| 0 <= r < n implies #[trigger] self.flat_layout()[r * (w + 1) + w]
            == self.entries()[r].1 by {
            assert(rows[r] == self.entries()[r].0.push(self.entries()[r].1));
            assert(self.flat_layout()[r * (w + 1) + w] == rows[r][w as int]);
        }
    }
}


impl<T: Clone> Clone for WeightAndBiasMatrix<T> {
    /// A matrix of the same width and height whose every weight and bias is a
    /// clone of the one at the same place.
    fn clone(&self) -> (r: Self)
        ensures
            r.spec_width() == self.spec_width(),
            r.spec_height() == self.spec_height(),
            r.entries().len() == self.entries().len(),
            forall|i: int|
                0 <= i < self.entries().len() ==> #[trigger] r.entries()[i].0.len() == self.entries()[i].0.len(),
            forall|i: int, j: int|
                0 <= i < self.entries().len() && 0 <= j < self.entries()[i].0.len() ==> cloned(
                    self.entries()[i].0[j],
                    #[trigger] r.entries()[i].0[j],
                ),
            forall|i: int|
                0 <= i < self.entries().len() ==> cloned(self.entries()[i].1, #[trigger] r.entries()[i].1),
    {
        proof {
            use_type_invariant(self);
        }
        let mut inner: Vec<(Vec<T>, T)> = Vec::new();
        let mut i: usize = 0;
        while i < self.inner.len()
            invariant
                0 <= i <= self.inner@.len(),
                self.rows_have_width(),
                inner@.len() == i,
                forall|k: int| 0 <= k < i ==> #[trigger] inner@[k].0@.len() == self.inner@[k].0@.len(),
                forall|k: int, j: int|
                    0 <= k < i && 0 <= j < self.inner@[k].0@.len() ==> cloned(
                        self.inner@[k].0@[j],
                        #[trigger] inner@[k].0@[j],
                    ),
                forall|k: int| 0 <= k < i ==> cloned(self.inner@[k].1, #[trigger] inner@[k].1),
            decreases self.inner@.len() - i,
        {
            let source = &self.inner[i].0;
            let mut row: Vec<T> = Vec::new();
            let mut j: usize = 0;
            while j < source.len()
                invariant
                    0 <= j <= source@.len(),
                    row@.len() == j,
                    forall|c: int| 0 <= c < j ==> cloned(source@[c], #[trigger] row@[c]),
                decreases source@.len() - j,
            {
                row.push(source[j].clone());
                j += 1;
            }
            inner.push((row, self.inner[i].1.clone()));
            i += 1;
        }
        assert forall|k: int| 0 <= k < inner@.len() implies #[trigger] inner@[k].0@.len() == self.width by {
            assert(self.entries()[k].0 == self.inner@[k].0@);
        }
        let r = WeightAndBiasMatrix { inner, width: self.width, height: self.height };
        assert(r.entries().len() == self.entries().len());
        r
    }
}

} // verus!
