use vstd::prelude::*;

use crate::weight_bias_matrix::is_default;

verus! {

/// The activations of one layer of neurons.
pub struct Layer<T> {
    inner: Vec<T>,
}

impl<T> Layer<T> {
    /// The activations, one per neuron.
    pub closed spec fn values(&self) -> Seq<T> {
        self.inner@
    }

    /// A layer of `size` neurons, each holding the element type's default value.
    pub fn new(size: usize) -> (r: Self)
        where
            T: Copy + Default,
        ensures
            r.values().len() == size,
            forall|i: int| 0 <= i < size ==> is_default(#[trigger] r.values()[i]),
    {
        Layer { inner: filled(size) }
    }
}

/// `size` copies of one default value.
pub fn filled<T: Copy + Default>(size: usize) -> (r: Vec<T>)
    ensures
        r@.len() == size,
        forall|i: int| 0 <= i < size ==> is_default(#[trigger] r@[i]),
{
    let zero = T::default();
    let mut out: Vec<T> = Vec::new();
    let mut j: usize = 0;
    while j < size
        invariant
            0 <= j <= size,
            is_default(zero),
            out@.len() == j,
            forall|c: int| 0 <= c < j ==> #[trigger] out@[c] == zero,
        decreases size - j,
    {
        out.push(zero);
        j += 1;
    }
    out
}

} // verus!
