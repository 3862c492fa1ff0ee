use vstd::prelude::*;

use crate::flat::{lemma_flatten_row_position, lemma_flatten_take_next};
use crate::weight_bias_matrix::{is_default, WeightAndBiasMatrix};

verus! {

/// Sum of `size()` over the first `k` matrices of `ms`.
pub open spec fn prefix_size<T>(ms: Seq<WeightAndBiasMatrix<T>>, k: int) -> nat
    decreases k,
{
    if k <= 0 || ms.len() < k {
        0
    } else {
        prefix_size(ms, k - 1) + ms[k - 1].spec_size()
    }
}

/// Slots taken by the flat layouts of the first `k` matrices of `ms`: where
/// matrix `k` starts when the layouts are put one after another.
pub open spec fn layout_offset<T>(ms: Seq<WeightAndBiasMatrix<T>>, k: int) -> nat {
    matrix_layouts(ms).take(k).flatten().len()
}

/// The flat layout of each matrix of `ms`.
pub open spec fn matrix_layouts<T>(ms: Seq<WeightAndBiasMatrix<T>>) -> Seq<Seq<T>> {
    ms.map_values(|m: WeightAndBiasMatrix<T>| m.flat_layout())
}

/// The layer sizes of a network and the weights and biases that feed each
/// layer after the first.
pub struct NeuralNetworkDescriptor<T> {
    pub layers: Vec<usize>,
    /// Entry `i - 1` feeds layer `i` from layer `i - 1`; each row ends with
    /// the bias of its output neuron.
    pub weights_and_biases: Vec<WeightAndBiasMatrix<T>>,
}

impl<T> NeuralNetworkDescriptor<T> {
    /// One matrix per layer after the first, each one slot wider than the
    /// layer it reads from and as high as the layer it feeds.
    pub open spec fn has_layer_shapes(&self) -> bool {
        &&& self.weights_and_biases@.len() + 1 == self.layers@.len()
        &&& forall|k: int|
            0 <= k < self.weights_and_biases@.len() ==> {
                &&& #[trigger] self.weights_and_biases@[k].spec_width() == self.layers@[k] + 1
                &&& self.weights_and_biases@[k].spec_height() == self.layers@[k + 1]
            }
    }

    /// A network with the given layer sizes, or none when there are fewer than
    /// two layers. The matrix feeding layer `i` is `structure[i - 1] + 1` wide
    /// and `structure[i]` high, with every weight and bias at the element
    /// type's default value.
    pub fn new(structure: &[usize]) -> (r: Option<Self>)
        where
            T: Copy + Default,
        requires
            forall|k: int| 0 <= k && k + 1 < structure@.len() ==> #[trigger] structure@[k] < usize::MAX,
        ensures
            r is Some <==> structure@.len() >= 2,
            r matches Some(d) ==> {
                &&& d.has_layer_shapes()
                &&& d.layers@ == structure@
                &&& d.weights_and_biases@.len() + 1 == structure@.len()
                &&& forall|k: int|
                    0 <= k < d.weights_and_biases@.len() ==> {
                        &&& (#[trigger] d.weights_and_biases@[k]).wf()
                        &&& d.weights_and_biases@[k].spec_width() == structure@[k] + 1
                        &&& d.weights_and_biases@[k].spec_height() == structure@[k + 1]
                        &&& forall|i: int, j: int|
                            0 <= i < structure@[k + 1] && 0 <= j <= structure@[k] ==> is_default(
                                d.weights_and_biases@[k].entries()[i].0[j],
                            )
                        &&& forall|i: int|
                            0 <= i < structure@[k + 1] ==> is_default(
                                d.weights_and_biases@[k].entries()[i].1,
                            )
                    }
            },
    {
        if structure.len() < 2 {
            return None;
        }
        let mut weights_and_biases: Vec<WeightAndBiasMatrix<T>> = Vec::new();
        let mut i: usize = 1;
        while i < structure.len()
            invariant
                1 <= i <= structure@.len(),
                forall|k: int| 0 <= k && k + 1 < structure@.len() ==> #[trigger] structure@[k] < usize::MAX,
                weights_and_biases@.len() + 1 == i,
                forall|k: int|
                    0 <= k < weights_and_biases@.len() ==> {
                        &&& (#[trigger] weights_and_biases@[k]).wf()
                        &&& weights_and_biases@[k].spec_width() == structure@[k] + 1
                        &&& weights_and_biases@[k].spec_height() == structure@[k + 1]
                        &&& forall|a: int, b: int|
                            0 <= a < structure@[k + 1] && 0 <= b <= structure@[k] ==> is_default(
                                weights_and_biases@[k].entries()[a].0[b],
                            )
                        &&& forall|a: int|
                            0 <= a < structure@[k + 1] ==> is_default(
                                weights_and_biases@[k].entries()[a].1,
                            )
                    },
            decreases structure@.len() - i,
        {
            let width = structure[i - 1];
            let height = structure[i];
            let m = WeightAndBiasMatrix::<T>::new(width + 1, height);
            weights_and_biases.push(m);
            i += 1;
        }
        let mut layers: Vec<usize> = Vec::new();
        let mut j: usize = 0;
        while j < structure.len()
            invariant
                0 <= j <= structure@.len(),
                layers@ == structure@.take(j as int),
            decreases structure@.len() - j,
        {
            layers.push(structure[j]);
            assert(structure@.take(j + 1) =~= structure@.take(j as int).push(structure@[j as int]));
            j += 1;
        }
        assert(structure@.take(j as int) =~= structure@);
        let d = NeuralNetworkDescriptor { layers, weights_and_biases };
        assert(d.has_layer_shapes());
        Some(d)
    }

    /// Number of layers.
    pub fn num_layers(&self) -> (r: usize)
        ensures
            r == self.layers@.len(),
    {
        self.layers.len()
    }

    /// Size of layer `index`, if there is such a layer.
    pub fn layer_size(&self, index: usize) -> (r: Option<usize>)
        ensures
            r == (if index < self.layers@.len() {
                Some(self.layers@[index as int])
            } else {
                None
            }),
    {
        if index < self.layers.len() {
            Some(self.layers[index])
        } else {
            None
        }
    }

    /// The matrix that feeds layer `output_layer_index`, if there is one.
    pub fn weights_and_biases(&self, output_layer_index: usize) -> (r: Option<
        &WeightAndBiasMatrix<T>,
    >)
        requires
            output_layer_index >= 1,
        ensures
            r is Some <==> output_layer_index - 1 < self.weights_and_biases@.len(),
            r matches Some(m) ==> *m == self.weights_and_biases@[output_layer_index - 1],
    {
        if output_layer_index - 1 < self.weights_and_biases.len() {
            Some(&self.weights_and_biases[output_layer_index - 1])
        } else {
            None
        }
    }

    /// Mutable access to the matrix that feeds layer `output_layer_index`, if
    /// there is one.
    pub fn weights_and_biases_mut(&mut self, output_layer_index: usize) -> (r: Option<
        &mut WeightAndBiasMatrix<T>,
    >)
        requires
            output_layer_index >= 1,
        ensures
            r is Some <==> output_layer_index - 1 < old(self).weights_and_biases@.len(),
            r matches Some(m) ==> {
                &&& *m == old(self).weights_and_biases@[output_layer_index - 1]
                &&& final(self).weights_and_biases@ == old(self).weights_and_biases@.update(
                    output_layer_index - 1,
                    *final(m),
                )
                &&& final(self).layers == old(self).layers
            },
            r is None ==> *final(self) == *old(self),
    {
        if output_layer_index - 1 < self.weights_and_biases.len() {
            Some(&mut self.weights_and_biases[output_layer_index - 1])
        } else {
            None
        }
    }
    /// Replaces the matrix that feeds layer `output_layer_index` with `data`.
    /// This succeeds exactly when that matrix exists and `data` has its width
    /// and height; otherwise nothing changes.
    pub fn set_weights_and_biases(
        &mut self,
        output_layer_index: usize,
        data: WeightAndBiasMatrix<T>,
    ) -> (r: Option<()>)
        requires
            output_layer_index >= 1,
        ensures
            r is Some <==> {
                &&& output_layer_index - 1 < old(self).weights_and_biases@.len()
                &&& old(self).weights_and_biases@[output_layer_index - 1].spec_height()
                    == data.spec_height()
                &&& old(self).weights_and_biases@[output_layer_index - 1].spec_width()
                    == data.spec_width()
            },
            r is Some ==> final(self).weights_and_biases@ == old(
                self,
            ).weights_and_biases@.update(output_layer_index - 1, data),
            r is Some ==> final(self).layers == old(self).layers,
            r is None ==> *final(self) == *old(self),
    {
        let index = output_layer_index - 1;
        if index >= self.weights_and_biases.len() {
            return None;
        }
        let current = &self.weights_and_biases[index];
        if current.height() != data.height() || current.width() != data.width() {
            return None;
        }
        self.weights_and_biases.set(index, data);
        Some(())
    }

    /// All matrices' flat layouts, one after another, and a pointer to the
    /// start of each matrix in them: the slots from pointer `k` on hold
    /// exactly matrix `k`'s flat layout, and each pointer is the previous one
    /// moved on by the previous matrix's layout.
    pub fn flat_weights_and_biases(&self) -> (r: (Vec<T>, Vec<usize>))
        where
            T: Copy,
        ensures
            r.0@ == matrix_layouts(self.weights_and_biases@).flatten(),
            r.1@.len() == self.weights_and_biases@.len(),
            forall|k: int|
                0 <= k < r.1@.len() ==> #[trigger] r.1@[k] == layout_offset(self.weights_and_biases@, k),
            forall|k: int|
                0 <= k < r.1@.len() ==> #[trigger] r.1@[k] + self.weights_and_biases@[k].flat_layout().len()
                    <= r.0@.len(),
            forall|k: int|
                0 <= k < r.1@.len() ==> r.0@.subrange(
                    #[trigger] r.1@[k] as int,
                    r.1@[k] + self.weights_and_biases@[k].flat_layout().len(),
                ) == self.weights_and_biases@[k].flat_layout(),
            forall|k: int|
                0 <= k && k + 1 < r.1@.len() ==> #[trigger] r.1@[k + 1] == r.1@[k]
                    + self.weights_and_biases@[k].flat_layout().len(),
    {
        let ghost ms = self.weights_and_biases@;
        let ghost layouts = matrix_layouts(ms);
        let mut output: Vec<T> = Vec::new();
        let mut ptrs: Vec<usize> = Vec::new();
        let mut i: usize = 0;
        while i < self.weights_and_biases.len()
            invariant
                0 <= i <= ms.len(),
                ms == self.weights_and_biases@,
                layouts == matrix_layouts(ms),
                ptrs@.len() == i,
                forall|k: int| 0 <= k < i ==> #[trigger] ptrs@[k] == layout_offset(ms, k),
                output@ == layouts.take(i as int).flatten(),
            decreases ms.len() - i,
        {
            let matrix = &self.weights_and_biases[i];
            ptrs.push(output.len());
            let mut flat = matrix.flat_weights_and_biases();
            output.append(&mut flat);
            proof {
                lemma_flatten_take_next(layouts, i as int);
            }
            i += 1;
        }
        assert(layouts.take(i as int) =~= layouts);
        assert forall|k: int| 0 <= k < ptrs@.len() implies #[trigger] ptrs@[k] + ms[k].flat_layout().len()
            <= output@.len() && output@.subrange(
            ptrs@[k] as int,
            ptrs@[k] + ms[k].flat_layout().len(),
        ) == ms[k].flat_layout() by {
            assert(layouts[k] == ms[k].flat_layout());
            lemma_flatten_row_position(layouts, k);
        }
        assert forall|k: int| 0 <= k && k + 1 < ptrs@.len() implies #[trigger] ptrs@[k + 1] == ptrs@[k]
            + ms[k].flat_layout().len() by {
            assert(layouts[k] == ms[k].flat_layout());
            lemma_flatten_take_next(layouts, k);
        }
        (output, ptrs)
    }
}

/// When every matrix is well formed, the flat layout of the first `k`
/// matrices has exactly `prefix_size(ms, k)` slots.
pub proof fn lemma_prefix_layout_len<T>(ms: Seq<WeightAndBiasMatrix<T>>, k: int)
    requires
        0 <= k <= ms.len(),
        forall|j: int| 0 <= j < ms.len() ==> (#[trigger] ms[j]).wf(),
    ensures
        matrix_layouts(ms).take(k).flatten().len() == prefix_size(ms, k),
    decreases k,
{
    if k > 0 {
        lemma_prefix_layout_len(ms, k - 1);
        lemma_flatten_take_next(matrix_layouts(ms), k - 1);
        ms[k - 1].lemma_layout();
    } else {
        assert(matrix_layouts(ms).take(k) =~= Seq::<Seq<T>>::empty());
    }
}

/// With well-formed matrices the pointers follow from the sizes alone: the
/// start of matrix `k` is the sum of `size()` over the matrices before it,
/// and all layouts together take the sum over every matrix.
pub proof fn lemma_offsets_are_size_sums<T>(ms: Seq<WeightAndBiasMatrix<T>>, k: int)
    requires
        0 <= k <= ms.len(),
        forall|j: int| 0 <= j < ms.len() ==> (#[trigger] ms[j]).wf(),
    ensures
        layout_offset(ms, k) == prefix_size(ms, k),
        matrix_layouts(ms).flatten().len() == prefix_size(ms, ms.len() as int),
{
    lemma_prefix_layout_len(ms, k);
    lemma_prefix_layout_len(ms, ms.len() as int);
    assert(matrix_layouts(ms).take(ms.len() as int) =~= matrix_layouts(ms));
}

/// Replacing a matrix reads back: after a successful
/// `set_weights_and_biases(output_layer_index, data)`, the matrix that feeds
/// that layer is `data`, every other matrix and every layer size is as
/// before, and a network whose matrices matched its layer sizes still does.
pub proof fn lemma_replaced_matrix_reads_back<T>(
    before: NeuralNetworkDescriptor<T>,
    after: NeuralNetworkDescriptor<T>,
    output_layer_index: usize,
    data: WeightAndBiasMatrix<T>,
)
    requires
        output_layer_index >= 1,
        output_layer_index - 1 < before.weights_and_biases@.len(),
        before.weights_and_biases@[output_layer_index - 1].spec_width() == data.spec_width(),
        before.weights_and_biases@[output_layer_index - 1].spec_height() == data.spec_height(),
        after.weights_and_biases@ == before.weights_and_biases@.update(output_layer_index - 1, data),
        after.layers == before.layers,
    ensures
        after.weights_and_biases@[output_layer_index - 1] == data,
        after.weights_and_biases@.len() == before.weights_and_biases@.len(),
        forall|k: int|
            0 <= k < after.weights_and_biases@.len() && k != output_layer_index - 1
                ==> #[trigger] after.weights_and_biases@[k] == before.weights_and_biases@[k],
        after.layers@ == before.layers@,
        before.has_layer_shapes() ==> after.has_layer_shapes(),
{
}

} // verus!
