//! The sample store: parsed samples kept in arrival order.
use vstd::prelude::*;

use crate::model::Sample;

verus! {

/// Append-only sequence of samples, in the order they were read.
pub struct SampleStore {
    samples: Vec<Sample>,
}

impl View for SampleStore {
    type V = Seq<Sample>;

    closed spec fn view(&self) -> Seq<Sample> {
        self.samples@
    }
}

impl SampleStore {
    /// An empty store.
    pub fn new() -> (r: SampleStore)
        ensures
            r@ == Seq::<Sample>::empty(),
    {
        SampleStore { samples: Vec::new() }
    }

    /// Adds one sample after all earlier ones; nothing is reordered or dropped.
    pub fn append(&mut self, sample: Sample)
        ensures
            final(self)@ == old(self)@.push(sample),
    {
        self.samples.push(sample);
    }

    /// The samples in arrival order.
    pub fn all_samples(&self) -> (r: &Vec<Sample>)
        ensures
            r@ == self@,
    {
        &self.samples
    }

    /// How many samples are stored.
    pub fn len(&self) -> (r: usize)
        ensures
            r == self@.len(),
    {
        self.samples.len()
    }
}

} // verus!
