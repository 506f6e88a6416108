//! Failures that the attention layer and the decoder report.

use vstd::prelude::*;

verus! {

/// Why a request was turned down.
#[derive(Clone, Copy, Debug, PartialEq, Eq, Structural)]
pub enum AttentionError {
    /// The extents handed in do not fit each other or the layer.
    ShapeMismatch,
    /// Something that only the query stream uses was given without a query stream.
    MissingStream,
    /// Decoding found no continuation to go on with.
    GenerationExhausted,
}

impl AttentionError {
    /// The sentence that `describe` returns for each failure.
    pub open spec fn description(self) -> Seq<char> {
        match self {
            AttentionError::ShapeMismatch => "tensor extents do not fit the attention layer"@,
            AttentionError::MissingStream => "query-stream input given without a query stream"@,
            AttentionError::GenerationExhausted => "no continuation left to decode"@,
        }
    }

    /// A sentence for the failure, for messages and logs.
    pub fn describe(&self) -> (text: &'static str)
        ensures
            text@ == self.description(),
    {
        match self {
            AttentionError::ShapeMismatch => "tensor extents do not fit the attention layer",
            AttentionError::MissingStream => "query-stream input given without a query stream",
            AttentionError::GenerationExhausted => "no continuation left to decode",
        }
    }
}

} // verus!
