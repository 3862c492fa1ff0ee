use neuralnet::forward_propagation::{
    alternating_layers, dispatch_count, max_size, ForwardPropagation, LayerPass, ShaderParameters,
};
use neuralnet::layer::{filled, Layer};
use neuralnet::matrix::Matrix;
use neuralnet::network::NeuralNetworkDescriptor;
use neuralnet::weight_bias_matrix::WeightAndBiasMatrix;

#[test]
fn matrix_new_accepts_rectangular_rows() {
    let m = Matrix::new(vec![vec![1.0f32, 2.0, 3.0], vec![4.0, 5.0, 6.0]]);
    assert!(m.is_some());
    assert_eq!(m.unwrap().flatten(), vec![1.0f32, 2.0, 3.0, 4.0, 5.0, 6.0]);
}

#[test]
fn matrix_new_rejects_ragged_rows() {
    assert!(Matrix::new(vec![vec![1.0f32, 2.0], vec![3.0]]).is_none());
    assert!(Matrix::new(vec![vec![1.0f32], vec![2.0], vec![3.0, 4.0]]).is_none());
}

#[test]
fn matrix_new_rejects_no_rows() {
    assert!(Matrix::<f32>::new(Vec::new()).is_none());
}

#[test]
fn matrix_flatten_puts_item_at_row_times_width_plus_column() {
    let m = Matrix::new(vec![vec![0u32, 1, 2, 3], vec![10, 11, 12, 13], vec![20, 21, 22, 23]]).unwrap();
    let flat = m.flatten();
    assert_eq!(flat.len(), 12);
    for r in 0..3u32 {
        for c in 0..4u32 {
            assert_eq!(flat[(r * 4 + c) as usize], r * 10 + c);
        }
    }
}

#[test]
fn matrix_of_empty_rows_flattens_to_nothing() {
    let m = Matrix::new(vec![Vec::<f32>::new(), Vec::new()]).unwrap();
    assert!(m.flatten().is_empty());
}

#[test]
fn weight_bias_new_is_all_zero_with_sizes() {
    let m = WeightAndBiasMatrix::<f32>::new(3, 2);
    assert_eq!(m.width(), 3);
    assert_eq!(m.height(), 2);
    assert_eq!(m.size(), 8);
    assert_eq!(m.size_weights(), 6);
    assert_eq!(m.size_biases(), 2);
    assert_eq!(m.size(), m.size_weights() + m.size_biases());
    assert_eq!(m.flat_weights_and_biases(), vec![0.0f32; 8]);
    assert_eq!(m.weights(), vec![vec![0.0f32; 3]; 2]);
    assert_eq!(m.flat_weights(), vec![0.0f32; 6]);
    assert_eq!(m.biases(), vec![0.0f32; 2]);
}

#[test]
fn weight_bias_new_with_no_rows() {
    let m = WeightAndBiasMatrix::<f32>::new(5, 0);
    assert_eq!(m.size(), 0);
    assert!(m.flat_weights_and_biases().is_empty());
    assert!(m.biases().is_empty());
}

#[test]
fn from_nested_vec_keeps_rows_after_the_first() {
    let m = WeightAndBiasMatrix::from_nested_vec(
        vec![vec![1.0f32, 2.0], vec![3.0, 4.0], vec![5.0, 6.0]],
        vec![7.0f32, 8.0, 9.0],
    )
    .unwrap();
    assert_eq!(m.width(), 2);
    assert_eq!(m.height(), 3);
    assert_eq!(m.weights(), vec![vec![3.0f32, 4.0], vec![5.0, 6.0]]);
    assert_eq!(m.biases(), vec![8.0f32, 9.0]);
    assert_eq!(m.flat_weights_and_biases(), vec![3.0f32, 4.0, 8.0, 5.0, 6.0, 9.0]);
    assert_eq!(m.flat_weights(), vec![3.0f32, 4.0, 5.0, 6.0]);
}

#[test]
fn from_nested_vec_rejects_ragged_rows() {
    let m = WeightAndBiasMatrix::from_nested_vec(vec![vec![1.0f32, 2.0], vec![3.0]], vec![7.0f32, 8.0]);
    assert!(m.is_none());
}

#[test]
fn from_nested_vec_rejects_nothing_to_pair() {
    assert!(WeightAndBiasMatrix::<f32>::from_nested_vec(Vec::new(), vec![1.0]).is_none());
    assert!(WeightAndBiasMatrix::<f32>::from_nested_vec(vec![vec![1.0]], Vec::new()).is_none());
}

#[test]
fn from_nested_vec_stops_at_the_shorter_input() {
    // The ragged second row is never visited: there is only one bias.
    let m = WeightAndBiasMatrix::from_nested_vec(vec![vec![1.0f32, 2.0], vec![3.0]], vec![7.0f32]).unwrap();
    assert_eq!(m.width(), 2);
    assert_eq!(m.height(), 2);
    assert!(m.weights().is_empty());
    assert!(m.biases().is_empty());
}

#[test]
fn weight_bias_layout_places_bias_after_each_row() {
    let mut m = WeightAndBiasMatrix::<u32>::new(3, 2);
    m.fill(&vec![1, 2, 3, 4, 5, 6]);
    let flat = m.flat_weights_and_biases();
    assert_eq!(flat.len(), m.size());
    assert_eq!(flat, vec![1, 2, 3, 0, 4, 5, 6, 0]);
    for r in 0..2usize {
        for c in 0..3usize {
            assert_eq!(flat[r * 4 + c], m.weights()[r][c]);
        }
        assert_eq!(flat[r * 4 + 3], m.biases()[r]);
    }
}

#[test]
fn fill_sets_weights_in_order_and_keeps_biases() {
    let mut m = WeightAndBiasMatrix::from_nested_vec(
        vec![vec![0.0f32, 0.0], vec![0.0, 0.0], vec![0.0, 0.0]],
        vec![0.0f32, 0.5, 1.5],
    )
    .unwrap();
    m.fill(&vec![1.0, 2.0, 3.0, 4.0]);
    assert_eq!(m.weights(), vec![vec![1.0f32, 2.0], vec![3.0, 4.0]]);
    assert_eq!(m.flat_weights(), vec![1.0f32, 2.0, 3.0, 4.0]);
    assert_eq!(m.biases(), vec![0.5f32, 1.5]);
    assert_eq!(m.width(), 2);
    assert_eq!(m.height(), 3);
}

#[test]
fn descriptor_new_builds_one_matrix_per_later_layer() {
    let d = NeuralNetworkDescriptor::<f32>::new(&[3, 2, 4]).unwrap();
    assert_eq!(d.layers, vec![3, 2, 4]);
    assert_eq!(d.num_layers(), 3);
    assert_eq!(d.weights_and_biases.len(), 2);
    assert_eq!(d.weights_and_biases[0].width(), 4);
    assert_eq!(d.weights_and_biases[0].height(), 2);
    assert_eq!(d.weights_and_biases[1].width(), 3);
    assert_eq!(d.weights_and_biases[1].height(), 4);
    assert_eq!(d.weights_and_biases[1].flat_weights_and_biases(), vec![0.0f32; 16]);
}

#[test]
fn descriptor_new_needs_two_layers() {
    assert!(NeuralNetworkDescriptor::<f32>::new(&[]).is_none());
    assert!(NeuralNetworkDescriptor::<f32>::new(&[5]).is_none());
    assert!(NeuralNetworkDescriptor::<f32>::new(&[5, 1]).is_some());
}

#[test]
fn descriptor_layer_size_and_matrix_lookup() {
    let d = NeuralNetworkDescriptor::<f32>::new(&[784, 256, 128, 10]).unwrap();
    assert_eq!(d.layer_size(0), Some(784));
    assert_eq!(d.layer_size(3), Some(10));
    assert_eq!(d.layer_size(4), None);
    assert_eq!(d.weights_and_biases(1).unwrap().width(), 785);
    assert_eq!(d.weights_and_biases(3).unwrap().height(), 10);
    assert!(d.weights_and_biases(4).is_none());
}

#[test]
fn descriptor_mutable_lookup_writes_through() {
    let mut d = NeuralNetworkDescriptor::<f32>::new(&[1, 1, 1]).unwrap();
    {
        let m = d.weights_and_biases_mut(2).unwrap();
        m.fill(&vec![9.0, 8.0]);
    }
    assert_eq!(d.weights_and_biases(2).unwrap().flat_weights(), vec![9.0f32, 8.0]);
    assert_eq!(d.weights_and_biases(1).unwrap().flat_weights(), vec![0.0f32, 0.0]);
    assert!(d.weights_and_biases_mut(3).is_none());
}

#[test]
fn set_weights_and_biases_reads_back() {
    let mut d = NeuralNetworkDescriptor::<f32>::new(&[1, 1, 1]).unwrap();
    let mut data = WeightAndBiasMatrix::<f32>::new(2, 1);
    data.fill(&vec![3.0, 4.0]);
    assert_eq!(d.set_weights_and_biases(1, data), Some(()));
    assert_eq!(d.weights_and_biases(1).unwrap().flat_weights_and_biases(), vec![3.0f32, 4.0, 0.0]);
    assert_eq!(d.weights_and_biases(2).unwrap().flat_weights(), vec![0.0f32, 0.0]);
    assert_eq!(d.layers, vec![1, 1, 1]);
}

#[test]
fn set_weights_and_biases_rejects_other_shapes() {
    let mut d = NeuralNetworkDescriptor::<f32>::new(&[1, 1, 1]).unwrap();
    let mut wide = WeightAndBiasMatrix::<f32>::new(3, 1);
    wide.fill(&vec![1.0, 1.0, 1.0]);
    assert_eq!(d.set_weights_and_biases(1, wide), None);
    assert_eq!(d.set_weights_and_biases(1, WeightAndBiasMatrix::new(2, 2)), None);
    assert_eq!(d.set_weights_and_biases(3, WeightAndBiasMatrix::new(2, 1)), None);
    assert_eq!(d.weights_and_biases(1).unwrap().flat_weights(), vec![0.0f32, 0.0]);
}

#[test]
fn descriptor_flat_layout_reports_matrix_offsets() {
    let mut d = NeuralNetworkDescriptor::<u32>::new(&[3, 2, 4]).unwrap();
    d.weights_and_biases_mut(2).unwrap().fill(&(1..=12).collect::<Vec<u32>>());
    let (flat, ptrs) = d.flat_weights_and_biases();
    assert_eq!(ptrs, vec![0, 10]);
    assert_eq!(flat.len(), 26);
    let second = d.weights_and_biases(2).unwrap();
    assert_eq!(flat[ptrs[1]..ptrs[1] + second.size()].to_vec(), second.flat_weights_and_biases());
    assert_eq!(flat[ptrs[0]..ptrs[0] + 10].to_vec(), vec![0u32; 10]);
}

#[test]
fn forward_propagation_starts_at_zero() {
    let d = NeuralNetworkDescriptor::<f32>::new(&[3, 2]).unwrap();
    let fp = ForwardPropagation::new(&d);
    assert_eq!(fp.layer(0), Some(&vec![0.0f32; 3]));
    assert_eq!(fp.layer(1), Some(&vec![0.0f32; 2]));
    assert_eq!(fp.layer(2), None);
    assert_eq!(fp.descriptor().layers, vec![3, 2]);
}

#[test]
fn set_layer_reads_back() {
    let d = NeuralNetworkDescriptor::<f32>::new(&[3, 2]).unwrap();
    let mut fp = ForwardPropagation::new(&d);
    assert_eq!(fp.set_layer(0, vec![1.0, 2.0, 3.0]), Some(()));
    assert_eq!(fp.layer(0), Some(&vec![1.0f32, 2.0, 3.0]));
    assert_eq!(fp.layer(1), Some(&vec![0.0f32; 2]));
}

#[test]
fn set_layer_rejects_wrong_length_or_index() {
    let d = NeuralNetworkDescriptor::<f32>::new(&[3, 2]).unwrap();
    let mut fp = ForwardPropagation::new(&d);
    assert_eq!(fp.set_layer(0, vec![1.0, 2.0]), None);
    assert_eq!(fp.set_layer(2, vec![1.0, 2.0]), None);
    assert_eq!(fp.layer(0), Some(&vec![0.0f32; 3]));
}

#[test]
fn layer_mut_writes_through() {
    let d = NeuralNetworkDescriptor::<f32>::new(&[3, 2]).unwrap();
    let mut fp = ForwardPropagation::new(&d);
    fp.layer_mut(1).unwrap().push(7.0);
    assert_eq!(fp.layer(1), Some(&vec![0.0f32, 0.0, 7.0]));
    assert!(fp.layer_mut(2).is_none());
}

#[test]
fn dispatch_count_rounds_up() {
    assert_eq!(dispatch_count(0), 0);
    assert_eq!(dispatch_count(1), 1);
    assert_eq!(dispatch_count(64), 1);
    assert_eq!(dispatch_count(65), 2);
    assert_eq!(dispatch_count(784), 13);
}

#[test]
fn alternating_layers_splits_by_position() {
    let (a, b) = alternating_layers(&vec![784, 256, 128, 10, 5]);
    assert_eq!(a, vec![784, 128, 5]);
    assert_eq!(b, vec![256, 10]);
    let (a, b) = alternating_layers(&Vec::new());
    assert!(a.is_empty() && b.is_empty());
}

#[test]
fn max_size_finds_largest() {
    assert_eq!(max_size(&vec![3, 9, 2, 9]), Some(9));
    assert_eq!(max_size(&vec![4]), Some(4));
    assert_eq!(max_size(&Vec::new()), None);
}

#[test]
fn plan_run_for_small_network() {
    let mut d = NeuralNetworkDescriptor::<f32>::new(&[3, 2, 4]).unwrap();
    d.weights_and_biases_mut(1).unwrap().fill(&vec![1.0; 8]);
    let mut fp = ForwardPropagation::new(&d);
    fp.set_layer(0, vec![0.5, 0.25, 0.125]).unwrap();
    let plan = fp.plan_run();
    assert_eq!(plan.a_buffer_size, 4);
    assert_eq!(plan.b_buffer_size, 2);
    assert_eq!(plan.initial_a_buffer, vec![0.5f32, 0.25, 0.125, 0.0]);
    assert_eq!(plan.weight_matrix_ptrs, vec![0, 10]);
    assert_eq!(plan.weights_and_biases.len(), 26);
    assert_eq!(plan.output_size, 4);
    assert_eq!(
        plan.passes,
        vec![
            LayerPass {
                params: ShaderParameters {
                    b_is_input_layer: 0,
                    weight_matrix_index: 0,
                    weight_matrix_width: 4,
                    weight_matrix_height: 2,
                },
                num_dispatches: 1,
            },
            LayerPass {
                params: ShaderParameters {
                    b_is_input_layer: 1,
                    weight_matrix_index: 10,
                    weight_matrix_width: 3,
                    weight_matrix_height: 4,
                },
                num_dispatches: 1,
            },
        ]
    );
}

#[test]
fn plan_run_cuts_a_longer_first_layer() {
    let d = NeuralNetworkDescriptor::<f32>::new(&[2, 1]).unwrap();
    let mut fp = ForwardPropagation::new(&d);
    fp.layer_mut(0).unwrap().push(5.0);
    let plan = fp.plan_run();
    assert_eq!(plan.a_buffer_size, 2);
    assert_eq!(plan.initial_a_buffer, vec![0.0f32, 0.0]);
    assert_eq!(plan.passes.len(), 1);
}

#[test]
fn plan_run_buffers_hold_every_layer() {
    let sizes = [784usize, 256, 128, 10];
    let d = NeuralNetworkDescriptor::<f32>::new(&sizes).unwrap();
    let fp = ForwardPropagation::new(&d);
    let plan = fp.plan_run();
    assert_eq!(plan.a_buffer_size, 784);
    assert_eq!(plan.b_buffer_size, 256);
    for (i, s) in sizes.iter().enumerate() {
        let buffer = if i % 2 == 0 { plan.a_buffer_size } else { plan.b_buffer_size };
        assert!(*s <= buffer);
    }
    assert_eq!(plan.passes[0].num_dispatches, 4);
    assert_eq!(plan.passes[2].params.weight_matrix_index as usize, plan.weight_matrix_ptrs[2]);
    assert_eq!(plan.weight_matrix_ptrs[1], 786 * 256);
}

#[test]
fn layer_new_and_filled() {
    let _layer = Layer::<f32>::new(4);
    assert_eq!(filled::<f32>(3), vec![0.0f32; 3]);
    assert!(filled::<u8>(0).is_empty());
}

#[test]
fn flat_offsets_follow_stored_rows_not_recorded_height() {
    let mut d = NeuralNetworkDescriptor::<u32>::new(&[2, 2, 2]).unwrap();
    let short = WeightAndBiasMatrix::from_nested_vec(vec![vec![1, 2, 3], vec![4, 5, 6]], vec![7, 8]).unwrap();
    assert_eq!(short.height(), 2);
    assert_eq!(d.set_weights_and_biases(1, short), Some(()));
    let (flat, ptrs) = d.flat_weights_and_biases();
    assert_eq!(ptrs, vec![0, 4]);
    assert_eq!(flat.len(), 12);
    assert_eq!(flat[0..4].to_vec(), vec![4u32, 5, 6, 8]);
    assert_eq!(flat[4..12].to_vec(), d.weights_and_biases(2).unwrap().flat_weights_and_biases());
    let fp = ForwardPropagation::new(&d);
    let plan = fp.plan_run();
    assert_eq!(plan.passes[1].params.weight_matrix_index, 4);
}

#[test]
fn weight_bias_clone_keeps_everything() {
    let m = WeightAndBiasMatrix::from_nested_vec(vec![vec![1.0f32, 2.0], vec![3.0, 4.0]], vec![5.0f32, 6.0]).unwrap();
    let c = m.clone();
    assert_eq!(c.width(), 2);
    assert_eq!(c.height(), 2);
    assert_eq!(c.flat_weights_and_biases(), vec![3.0f32, 4.0, 6.0]);
}

#[test]
fn layer_sizes_kept_across_set_layer_calls() {
    let d = NeuralNetworkDescriptor::<f32>::new(&[3, 2, 1]).unwrap();
    let mut fp = ForwardPropagation::new(&d);
    let _ = fp.set_layer(1, vec![1.0, 2.0]);
    let _ = fp.set_layer(2, vec![1.0, 2.0]);
    let _ = fp.set_layer(0, vec![4.0]);
    for i in 0..3 {
        assert_eq!(fp.layer(i).unwrap().len(), d.layers[i]);
    }
}
