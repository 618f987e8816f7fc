use vstd::prelude::*;

verus! {

/// Quantisation factor of the first layer's activations.
pub const QA: i16 = 255;

/// Quantisation factor of the second layer's weights.
pub const QB: i16 = 64;

/// A row of `HIDDEN` quantised values of a network layer.
#[derive(Clone, Copy)]
pub struct QuantizedAccumulator<T: Copy, const HIDDEN: usize> {
    pub vals: [T; HIDDEN],
}

impl<T: Copy, const HIDDEN: usize> QuantizedAccumulator<T, HIDDEN> {
    pub fn values(&self) -> (r: &[T; HIDDEN])
        ensures
            *r == self.vals,
    {
        &self.vals
    }

    pub fn values_mut(&mut self) -> (r: &mut [T; HIDDEN])
        ensures
            *r == old(self).vals,
            final(self).vals == *final(r),
    {
        &mut self.vals
    }
}

/// A dense quantised layer: one row of `OUTPUTS` weights per input, and the biases.
#[derive(Clone, Copy)]
pub struct QunatisedNetworkLayer<T: Copy, const INPUTS: usize, const OUTPUTS: usize> {
    pub weights: [QuantizedAccumulator<T, OUTPUTS>; INPUTS],
    pub biases: QuantizedAccumulator<T, OUTPUTS>,
}

impl<T: Copy, const INPUTS: usize, const OUTPUTS: usize> QunatisedNetworkLayer<T, INPUTS, OUTPUTS> {
    pub fn weights(&self) -> (r: &[QuantizedAccumulator<T, OUTPUTS>; INPUTS])
        ensures
            *r == self.weights,
    {
        &self.weights
    }

    pub fn biases(&self) -> (r: &QuantizedAccumulator<T, OUTPUTS>)
        ensures
            *r == self.biases,
    {
        &self.biases
    }
}

} // verus!
