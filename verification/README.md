# neuralnet

Host-side logic of a dense feed-forward network evaluated by a GPU compute
shader, verified with Verus.

- `src/matrix.rs`: row-major matrices built from rows, and their flattening.
- `src/weight_bias_matrix.rs`: weight matrices whose rows carry a bias, their
  sizes and the flat layout uploaded to the GPU.
- `src/network.rs`: the network descriptor (layer sizes and one matrix per
  later layer) and the concatenated layout with each matrix's start offset.
- `src/forward_propagation.rs`: per-layer activations and the plan of a
  forward pass: neuron buffer sizes, initial buffer, shader parameters and
  workgroup counts of every pass.
- `src/layer.rs`: a layer of activations.
- `src/flat.rs`: lemmas on flattened sequences.
- `app/main.rs`: the GPU program (device, buffers, dispatch, read-back) and
  the random initial weights. It reads the compute shader from
  `shaders/matrix_multiply.wgsl` at run time.

Containers are generic over the element type; the program stores `f32`.
