//! The cache of a stack of attention layers: for every layer, by its number,
//! what that layer keeps from earlier decoding steps.
//!
//! A generation run owns one cache and hands it to every step. A step does
//! not write into what a layer holds: it puts a new state in its place.

use vstd::prelude::*;
use crate::attention::LayerState;
use crate::error::AttentionError;

verus! {

/// What every layer of a stack keeps from earlier decoding steps.
#[derive(Debug)]
pub struct LayerCache {
    states: Vec<LayerState>,
}

impl View for LayerCache {
    type V = Seq<Seq<i64>>;

    /// For every layer, the extents of the content it holds.
    closed spec fn view(&self) -> Seq<Seq<i64>> {
        Seq::new(self.states@.len(), |l: int| self.states@[l].prev_content@)
    }
}

impl LayerCache {
    /// The cache at the start of a sequence: `layers` layers, none of which
    /// holds anything.
    pub fn new(layers: usize) -> (cache: LayerCache)
        ensures
            cache@.len() == layers,
            forall|l: int| 0 <= l < layers ==> #[trigger] cache@[l] == seq![0i64],
    {
        let mut states: Vec<LayerState> = Vec::new();
        let mut l: usize = 0;
        while l < layers
            invariant
                l <= layers,
                states@.len() == l,
                forall|k: int| 0 <= k < l ==> (#[trigger] states@[k]).prev_content@ == seq![0i64],
            decreases layers - l,
        {
            states.push(LayerState::empty());
            l += 1;
        }
        LayerCache { states }
    }

    /// Number of layers.
    pub fn layers(&self) -> (n: usize)
        ensures
            n == self@.len(),
    {
        self.states.len()
    }

    /// What layer `layer` holds, or nothing where the stack has no such layer.
    pub fn state(&self, layer: usize) -> (state: Option<&LayerState>)
        ensures
            state is Some <==> layer < self@.len(),
            state matches Some(s) ==> s.prev_content@ == self@[layer as int],
    {
        if layer < self.states.len() {
            Some(&self.states[layer])
        } else {
            None
        }
    }

    /// Puts `state` in the place of what layer `layer` holds.
    ///
    /// Fails with `ShapeMismatch`, and changes nothing, where the stack has
    /// no such layer.
    pub fn replace(&mut self, layer: usize, state: LayerState) -> (res: Result<(), AttentionError>)
        ensures
            res is Ok <==> layer < old(self)@.len(),
            res matches Err(e) ==> e == AttentionError::ShapeMismatch,
            final(self)@ == if layer < old(self)@.len() {
                old(self)@.update(layer as int, state.prev_content@)
            } else {
                old(self)@
            },
    {
        if layer >= self.states.len() {
            return Err(AttentionError::ShapeMismatch);
        }
        self.states.set(layer, state);
        Ok(())
    }
}

} // verus!
