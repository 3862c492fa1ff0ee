use vstd::prelude::*;

use crate::layer::filled;
use crate::matrix::rows_of;
use crate::network::{layout_offset, matrix_layouts, NeuralNetworkDescriptor};
use crate::weight_bias_matrix::is_default;

verus! {

/// Neurons handled by one GPU workgroup.
pub const WORKGROUP_SIZE: usize = 64;

/// What the compute shader is told before it computes one layer.
#[derive(Debug, Clone, Copy, PartialEq, Eq)]
pub struct ShaderParameters {
    /// 1 when the layer's inputs sit in the second neuron buffer, else 0.
    pub b_is_input_layer: u32,
    /// Slot at which the layer's weight matrix starts in the flat weights.
    pub weight_matrix_index: u32,
    pub weight_matrix_width: u32,
    pub weight_matrix_height: u32,
}

/// One compute pass: its shader parameters and how many workgroups it needs.
#[derive(Debug, Clone, Copy, PartialEq, Eq)]
pub struct LayerPass {
    pub params: ShaderParameters,
    pub num_dispatches: u32,
}

/// Everything a forward pass hands to the GPU, computed on the host.
pub struct RunPlan<T> {
    /// Length of the buffer that holds the even-numbered layers.
    pub a_buffer_size: usize,
    /// Length of the buffer that holds the odd-numbered layers.
    pub b_buffer_size: usize,
    /// The first layer's activations, cut or padded to `a_buffer_size`.
    pub initial_a_buffer: Vec<T>,
    /// All weights and biases, matrix after matrix.
    pub weights_and_biases: Vec<T>,
    /// Slot at which each matrix starts in `weights_and_biases`.
    pub weight_matrix_ptrs: Vec<usize>,
    /// Number of neurons in the last layer.
    pub output_size: usize,
    /// One pass per layer after the first, in order.
    pub passes: Vec<LayerPass>,
}

/// `ceil(n / d)` for a positive `d`.
pub open spec fn ceil_div(n: nat, d: nat) -> nat {
    if n % d == 0 { n / d } else { n / d + 1 }
}

/// The workgroup count for `neurons` neurons, as the 32-bit value the GPU takes.
pub open spec fn dispatch_count_spec(neurons: usize) -> u32 {
    ceil_div(neurons as nat, WORKGROUP_SIZE as nat) as u32
}

/// The workgroup count covers the layer with as few workgroups as possible:
/// whenever the count fits in 32 bits, `r` workgroups of `WORKGROUP_SIZE`
/// neurons reach every neuron, and `r - 1` of them would not.
pub proof fn lemma_dispatch_count_is_least_cover(neurons: usize)
    requires
        neurons <= WORKGROUP_SIZE * u32::MAX,
    ensures
        dispatch_count_spec(neurons) * WORKGROUP_SIZE >= neurons,
        dispatch_count_spec(neurons) == 0 || (dispatch_count_spec(neurons) - 1) * WORKGROUP_SIZE
            < neurons,
{
    let n = neurons as nat;
    let q = n / 64;
    assert(q * 64 + n % 64 == n && n % 64 < 64) by (nonlinear_arith)
        requires
            q == n / 64,
    ;
    assert(q <= u32::MAX) by (nonlinear_arith)
        requires
            q * 64 <= n,
            n <= 64 * u32::MAX,
    ;
    if n % 64 == 0 {
        assert(dispatch_count_spec(neurons) == q);
        assert((q - 1) * 64 == q * 64 - 64) by (nonlinear_arith);
    } else {
        assert(q + 1 <= u32::MAX) by (nonlinear_arith)
            requires
                q * 64 + n % 64 == n,
                n % 64 > 0,
                n <= 64 * u32::MAX,
        ;
        assert(dispatch_count_spec(neurons) == q + 1);
        assert((q + 1) * 64 == q * 64 + 64) by (nonlinear_arith);
    }
}

/// Number of workgroups of `WORKGROUP_SIZE` neurons that cover `neurons`
/// neurons, cut to 32 bits: when it fits, the least `r` with
/// `r * WORKGROUP_SIZE >= neurons`.
pub fn dispatch_count(neurons: usize) -> (r: u32)
    ensures
        r == dispatch_count_spec(neurons),
        neurons <= WORKGROUP_SIZE * u32::MAX ==> r * WORKGROUP_SIZE >= neurons,
        neurons <= WORKGROUP_SIZE * u32::MAX ==> (r == 0 || (r - 1) * WORKGROUP_SIZE < neurons),
{
    proof {
        if neurons <= WORKGROUP_SIZE * u32::MAX {
            lemma_dispatch_count_is_least_cover(neurons);
        }
    }
    let full = neurons / WORKGROUP_SIZE;
    let groups = if neurons % WORKGROUP_SIZE == 0 { full } else { full + 1 };
    groups as u32
}

/// Splits layer sizes by position: those at even positions, then those at odd
/// positions, each in their original order.
pub fn alternating_layers(sizes: &Vec<usize>) -> (r: (Vec<usize>, Vec<usize>))
    ensures
        r.0@.len() == (sizes@.len() + 1) / 2,
        r.1@.len() == sizes@.len() / 2,
        forall|k: int| 0 <= k < r.0@.len() ==> #[trigger] r.0@[k] == sizes@[2 * k],
        forall|k: int| 0 <= k < r.1@.len() ==> #[trigger] r.1@[k] == sizes@[2 * k + 1],
{
    let mut evens: Vec<usize> = Vec::new();
    let mut odds: Vec<usize> = Vec::new();
    let mut i: usize = 0;
    while i < sizes.len()
        invariant
            0 <= i <= sizes@.len(),
            evens@.len() == (i + 1) / 2,
            odds@.len() == i / 2,
            forall|k: int| 0 <= k < evens@.len() ==> #[trigger] evens@[k] == sizes@[2 * k],
            forall|k: int| 0 <= k < odds@.len() ==> #[trigger] odds@[k] == sizes@[2 * k + 1],
        decreases sizes@.len() - i,
    {
        if i % 2 == 0 {
            evens.push(sizes[i]);
        } else {
            odds.push(sizes[i]);
        }
        i += 1;
    }
    (evens, odds)
}

/// The largest value, or none for an empty list.
pub fn max_size(values: &Vec<usize>) -> (r: Option<usize>)
    ensures
        r is Some <==> values@.len() > 0,
        r matches Some(m) ==> values@.contains(m) && forall|k: int|
            0 <= k < values@.len() ==> #[trigger] values@[k] <= m,
{
    if values.len() == 0 {
        return None;
    }
    let mut best: usize = values[0];
    let mut i: usize = 1;
    while i < values.len()
        invariant
            1 <= i <= values@.len(),
            values@.contains(best),
            forall|k: int| 0 <= k < i ==> #[trigger] values@[k] <= best,
        decreases values@.len() - i,
    {
        if values[i] > best {
            best = values[i];
        }
        i += 1;
    }
    Some(best)
}

/// A buffer that `is_resized` from `v` to `len` holds `len` values: `v`'s
/// own values at every position `v` has, whatever the two lengths, and
/// default values only from `v`'s end on.
pub proof fn lemma_resized_keeps_values<T: Default>(r: Seq<T>, v: Seq<T>, len: nat)
    requires
        is_resized(r, v, len),
    ensures
        r.len() == len,
        forall|k: int| 0 <= k < len && k < v.len() ==> #[trigger] r[k] == v[k],
        forall|k: int| v.len() <= k < len ==> is_default(#[trigger] r[k]),
        len <= v.len() ==> r == v.take(len as int),
        v.len() <= len ==> r.take(v.len() as int) == v,
{
    if len <= v.len() {
        assert(r =~= v.take(len as int));
    } else {
        assert(r.take(v.len() as int) =~= v);
    }
}

/// The first layer cut or padded to `len`: its values where it has them,
/// default values after its end.
pub open spec fn is_resized<T: Default>(r: Seq<T>, v: Seq<T>, len: nat) -> bool {
    &&& r.len() == len
    &&& forall|k: int| 0 <= k < len && k < v.len() ==> #[trigger] r[k] == v[k]
    &&& forall|k: int| v.len() <= k < len ==> is_default(#[trigger] r[k])
}

/// The activations of every layer of a network, sized after its descriptor.
pub struct ForwardPropagation<'a, T> {
    layers: Vec<Vec<T>>,
    descriptor: &'a NeuralNetworkDescriptor<T>,
}

impl<'a, T> ForwardPropagation<'a, T> {
    /// The activations of each layer.
    pub closed spec fn layer_values(&self) -> Seq<Seq<T>> {
        rows_of(self.layers@)
    }

    /// The network the activations belong to.
    pub closed spec fn spec_descriptor(&self) -> &'a NeuralNetworkDescriptor<T> {
        self.descriptor
    }

    /// One list of activations per layer of the network. Every value keeps this.
    #[verifier::type_invariant]
    pub open spec fn wf(&self) -> bool {
        self.layer_values().len() == self.spec_descriptor().layers@.len()
    }

    /// Every layer holds as many activations as the network says it has.
    pub open spec fn layers_sized(&self) -> bool {
        &&& self.wf()
        &&& forall|k: int|
            0 <= k < self.layer_values().len() ==> #[trigger] self.layer_values()[k].len()
                == self.spec_descriptor().layers@[k]
    }

    /// Activations for every layer of `descriptor`, as many per layer as its
    /// size, all at the element type's default value.
    pub fn new(descriptor: &'a NeuralNetworkDescriptor<T>) -> (r: Self)
        where
            T: Copy + Default,
        ensures
            r.wf(),
            r.layers_sized(),
            r.spec_descriptor() == descriptor,
            forall|k: int|
                0 <= k < r.layer_values().len() ==> #[trigger] r.layer_values()[k].len()
                    == descriptor.layers@[k],
            forall|k: int, j: int|
                0 <= k < r.layer_values().len() && 0 <= j < r.layer_values()[k].len() ==> is_default(
                    #[trigger] r.layer_values()[k][j],
                ),
    {
        let mut layers: Vec<Vec<T>> = Vec::new();
        let mut i: usize = 0;
        while i < descriptor.layers.len()
            invariant
                0 <= i <= descriptor.layers@.len(),
                layers@.len() == i,
                forall|k: int| 0 <= k < i ==> #[trigger] layers@[k]@.len() == descriptor.layers@[k],
                forall|k: int, j: int|
                    0 <= k < i && 0 <= j < layers@[k]@.len() ==> is_default(#[trigger] layers@[k]@[j]),
            decreases descriptor.layers@.len() - i,
        {
            layers.push(filled(descriptor.layers[i]));
            i += 1;
        }
        ForwardPropagation { layers, descriptor }
    }

    /// The network these activations belong to.
    pub fn descriptor(&self) -> (r: &'a NeuralNetworkDescriptor<T>)
        ensures
            r == self.spec_descriptor(),
    {
        self.descriptor
    }

    /// The activations of layer `index`, if there is such a layer.
    pub fn layer(&self, index: usize) -> (r: Option<&Vec<T>>)
        ensures
            r is Some <==> index < self.layer_values().len(),
            r matches Some(v) ==> v@ == self.layer_values()[index as int],
    {
        if index < self.layers.len() {
            Some(&self.layers[index])
        } else {
            None
        }
    }

    /// Mutable access to the activations of layer `index`, if there is such a
    /// layer.
    pub fn layer_mut(&mut self, index: usize) -> (r: Option<&mut Vec<T>>)
        ensures
            r is Some <==> index < old(self).layer_values().len(),
            r matches Some(v) ==> {
                &&& v@ == old(self).layer_values()[index as int]
                &&& final(self).layer_values() == old(self).layer_values().update(
                    index as int,
                    final(v)@,
                )
                &&& final(self).spec_descriptor() == old(self).spec_descriptor()
            },
            r is None ==> *final(self) == *old(self),
    {
        proof {
            use_type_invariant(&*self);
        }
        if index < self.layers.len() {
            Some(&mut self.layers[index])
        } else {
            None
        }
    }

    /// Replaces the activations of layer `index` with `data`. This succeeds
    /// exactly when the layer exists and `data` has as many values as it has
    /// now; otherwise nothing changes.
    pub fn set_layer(&mut self, index: usize, data: Vec<T>) -> (r: Option<()>)
        ensures
            r is Some <==> index < old(self).layer_values().len() && old(
                self,
            ).layer_values()[index as int].len() == data@.len(),
            r is Some ==> final(self).layer_values() == old(self).layer_values().update(
                index as int,
                data@,
            ),
            final(self).spec_descriptor() == old(self).spec_descriptor(),
            old(self).layers_sized() ==> final(self).layers_sized(),
            r is None ==> *final(self) == *old(self),
    {
        proof {
            use_type_invariant(&*self);
        }
        if index >= self.layers.len() {
            return None;
        }
        if self.layers[index].len() != data.len() {
            return None;
        }
        self.layers[index] = data;
        proof {
            assert(self.layer_values() =~= old(self).layer_values().update(index as int, data@));
            if old(self).layers_sized() {
                assert forall|k: int| 0 <= k < self.layer_values().len() implies #[trigger] self.layer_values()[k].len()
                    == self.spec_descriptor().layers@[k] by {
                    if k != index {
                        assert(self.layer_values()[k] == old(self).layer_values()[k]);
                    }
                }
            }
        }
        Some(())
    }
    /// What one forward pass hands to the GPU. The network's layers take turns
    /// in two neuron buffers: even-numbered layers in the first, odd-numbered
    /// ones in the second, each buffer as long as the largest layer it holds.
    /// The first buffer starts as layer 0's activations, cut or padded with
    /// default values to its length. Pass `k` computes layer `k + 1` from
    /// layer `k` with the matrix that feeds it, reading the second buffer when
    /// layer `k` is odd, and dispatches enough workgroups to cover the layer.
    /// The slots from the start reported for matrix `k` hold exactly that
    /// matrix's weights and biases, and pass `k` is told that start.
    pub fn plan_run(&self) -> (r: RunPlan<T>)
        where
            T: Copy + Default,
        requires
            self.spec_descriptor().layers@.len() >= 2,
            self.spec_descriptor().weights_and_biases@.len() + 1 >= self.spec_descriptor().layers@.len(),
        ensures
            forall|i: int|
                0 <= i < self.spec_descriptor().layers@.len() && i % 2 == 0
                    ==> #[trigger] self.spec_descriptor().layers@[i] <= r.a_buffer_size,
            exists|i: int|
                0 <= i < self.spec_descriptor().layers@.len() && i % 2 == 0
                    && #[trigger] self.spec_descriptor().layers@[i] == r.a_buffer_size,
            forall|i: int|
                0 <= i < self.spec_descriptor().layers@.len() && i % 2 == 1
                    ==> #[trigger] self.spec_descriptor().layers@[i] <= r.b_buffer_size,
            exists|i: int|
                0 <= i < self.spec_descriptor().layers@.len() && i % 2 == 1
                    && #[trigger] self.spec_descriptor().layers@[i] == r.b_buffer_size,
            is_resized(r.initial_a_buffer@, self.layer_values()[0], r.a_buffer_size as nat),
            r.initial_a_buffer@.len() == r.a_buffer_size,
            forall|k: int|
                0 <= k < r.a_buffer_size && k < self.layer_values()[0].len()
                    ==> #[trigger] r.initial_a_buffer@[k] == self.layer_values()[0][k],
            forall|k: int|
                self.layer_values()[0].len() <= k < r.a_buffer_size ==> is_default(
                    #[trigger] r.initial_a_buffer@[k],
                ),
            forall|k: int|
                0 <= k < r.passes@.len() && self.spec_descriptor().layers@[k + 1] <= WORKGROUP_SIZE
                    * u32::MAX ==> #[trigger] r.passes@[k].num_dispatches * WORKGROUP_SIZE
                    >= self.spec_descriptor().layers@[k + 1] && (r.passes@[k].num_dispatches == 0 || (
                r.passes@[k].num_dispatches - 1) * WORKGROUP_SIZE < self.spec_descriptor().layers@[k + 1]),
            r.weights_and_biases@ == matrix_layouts(self.spec_descriptor().weights_and_biases@).flatten(),
            r.weight_matrix_ptrs@.len() == self.spec_descriptor().weights_and_biases@.len(),
            forall|k: int|
                0 <= k < r.weight_matrix_ptrs@.len() ==> #[trigger] r.weight_matrix_ptrs@[k]
                    == layout_offset(self.spec_descriptor().weights_and_biases@, k),
            forall|k: int|
                0 <= k < r.weight_matrix_ptrs@.len() ==> r.weights_and_biases@.subrange(
                    #[trigger] r.weight_matrix_ptrs@[k] as int,
                    r.weight_matrix_ptrs@[k] + self.spec_descriptor().weights_and_biases@[k].flat_layout().len(),
                ) == self.spec_descriptor().weights_and_biases@[k].flat_layout(),
            forall|k: int|
                0 <= k < r.passes@.len() ==> #[trigger] r.passes@[k].params.weight_matrix_index
                    == r.weight_matrix_ptrs@[k] as u32,
            r.output_size == self.spec_descriptor().layers@.last(),
            r.passes@.len() + 1 == self.spec_descriptor().layers@.len(),
            forall|k: int|
                0 <= k < r.passes@.len() ==> #[trigger] r.passes@[k] == (LayerPass {
                    params: ShaderParameters {
                        b_is_input_layer: if (k + 1) % 2 == 0 { 1u32 } else { 0u32 },
                        weight_matrix_index: layout_offset(
                            self.spec_descriptor().weights_and_biases@,
                            k,
                        ) as u32,
                        weight_matrix_width: self.spec_descriptor().weights_and_biases@[k].spec_width() as u32,
                        weight_matrix_height: self.spec_descriptor().weights_and_biases@[k].spec_height() as u32,
                    },
                    num_dispatches: dispatch_count_spec(self.spec_descriptor().layers@[k + 1]),
                }),
    {
        proof {
            use_type_invariant(self);
        }
        let d = self.descriptor;
        let n = d.layers.len();
        let (a_layers, b_layers) = alternating_layers(&d.layers);
        let a_max = max_size(&a_layers);
        let b_max = max_size(&b_layers);
        let a_buffer_size = a_max.unwrap();
        let b_buffer_size = b_max.unwrap();
        assert forall|i: int| 0 <= i < n && i % 2 == 0 implies #[trigger] d.layers@[i] <= a_buffer_size by {
            assert(a_layers@[i / 2] == d.layers@[2 * (i / 2)]);
        }
        assert forall|i: int| 0 <= i < n && i % 2 == 1 implies #[trigger] d.layers@[i] <= b_buffer_size by {
            assert(b_layers@[i / 2] == d.layers@[2 * (i / 2) + 1]);
        }
        proof {
            let ka = choose|k: int| 0 <= k < a_layers@.len() && a_layers@[k] == a_buffer_size;
            assert(d.layers@[2 * ka] == a_buffer_size);
            let kb = choose|k: int| 0 <= k < b_layers@.len() && b_layers@[k] == b_buffer_size;
            assert(d.layers@[2 * kb + 1] == b_buffer_size);
        }

        let zero = T::default();
        let first = &self.layers[0];
        let mut initial_a_buffer: Vec<T> = Vec::new();
        let mut j: usize = 0;
        while j < a_buffer_size
            invariant
                0 <= j <= a_buffer_size,
                is_default(zero),
                first@ == self.layer_values()[0],
                initial_a_buffer@.len() == j,
                forall|k: int| 0 <= k < j && k < first@.len() ==> #[trigger] initial_a_buffer@[k] == first@[k],
                forall|k: int| first@.len() <= k < j ==> #[trigger] initial_a_buffer@[k] == zero,
            decreases a_buffer_size - j,
        {
            if j < first.len() {
                initial_a_buffer.push(first[j]);
            } else {
                initial_a_buffer.push(zero);
            }
            j += 1;
        }

        let (weights_and_biases, weight_matrix_ptrs) = d.flat_weights_and_biases();
        let output_size = d.layers[n - 1];

        let mut passes: Vec<LayerPass> = Vec::new();
        let mut i: usize = 1;
        while i < self.layers.len()
            invariant
                1 <= i <= n,
                n == self.layers@.len(),
                n == d.layers@.len(),
                d == self.spec_descriptor(),
                d.weights_and_biases@.len() + 1 >= n,
                weight_matrix_ptrs@.len() == d.weights_and_biases@.len(),
                forall|k: int|
                    0 <= k < weight_matrix_ptrs@.len() ==> #[trigger] weight_matrix_ptrs@[k]
                        == layout_offset(d.weights_and_biases@, k),
                passes@.len() + 1 == i,
                forall|k: int|
                    0 <= k < passes@.len() ==> #[trigger] passes@[k] == (LayerPass {
                        params: ShaderParameters {
                            b_is_input_layer: if (k + 1) % 2 == 0 { 1u32 } else { 0u32 },
                            weight_matrix_index: layout_offset(d.weights_and_biases@, k) as u32,
                            weight_matrix_width: d.weights_and_biases@[k].spec_width() as u32,
                            weight_matrix_height: d.weights_and_biases@[k].spec_height() as u32,
                        },
                        num_dispatches: dispatch_count_spec(d.layers@[k + 1]),
                    }),
            decreases n - i,
        {
            let matrix = &d.weights_and_biases[i - 1];
            let params = ShaderParameters {
                b_is_input_layer: if i % 2 == 0 { 1u32 } else { 0u32 },
                weight_matrix_index: weight_matrix_ptrs[i - 1] as u32,
                weight_matrix_width: matrix.width() as u32,
                weight_matrix_height: matrix.height() as u32,
            };
            let num_dispatches = dispatch_count(d.layers[i]);
            passes.push(LayerPass { params, num_dispatches });
            i += 1;
        }

        assert forall|k: int|
            0 <= k < passes@.len() && d.layers@[k + 1] <= WORKGROUP_SIZE * u32::MAX implies #[trigger] passes@[k].num_dispatches
                * WORKGROUP_SIZE >= d.layers@[k + 1] && (passes@[k].num_dispatches == 0 || (
        passes@[k].num_dispatches - 1) * WORKGROUP_SIZE < d.layers@[k + 1]) by {
            lemma_dispatch_count_is_least_cover(d.layers@[k + 1]);
        }
        RunPlan {
            a_buffer_size,
            b_buffer_size,
            initial_a_buffer,
            weights_and_biases,
            weight_matrix_ptrs,
            output_size,
            passes,
        }
    }
}


/// Replacing a layer reads back: after a successful `set_layer(index, data)`,
/// layer `index` holds `data`, every other layer is as before, and layers
/// that held as many activations as the network says still do.
pub proof fn lemma_replaced_layer_reads_back<'a, T>(
    before: ForwardPropagation<'a, T>,
    after: ForwardPropagation<'a, T>,
    index: usize,
    data: Seq<T>,
)
    requires
        before.wf(),
        index < before.layer_values().len(),
        before.layer_values()[index as int].len() == data.len(),
        after.layer_values() == before.layer_values().update(index as int, data),
        after.spec_descriptor() == before.spec_descriptor(),
    ensures
        after.wf(),
        after.layer_values()[index as int] == data,
        forall|k: int|
            0 <= k < after.layer_values().len() && k != index ==> #[trigger] after.layer_values()[k]
                == before.layer_values()[k],
        before.layers_sized() ==> after.layers_sized(),
{
    if before.layers_sized() {
        assert forall|k: int| 0 <= k < after.layer_values().len() implies #[trigger] after.layer_values()[k].len()
            == after.spec_descriptor().layers@[k] by {
            if k != index {
                assert(after.layer_values()[k] == before.layer_values()[k]);
            }
        }
    }
}

} // verus!
