//! What the attention layer hands to whoever does the arithmetic: for every
//! pass the extents of each result, and which optional steps take part.
//!
//! Every plan has a view that holds the same as plain mathematics; the
//! contracts of the layer speak of the views.

use vstd::prelude::*;

verus! {

/// A vector of two extents.
pub fn extents2(a: i64, b: i64) -> (v: Vec<i64>)
    ensures
        v@ == seq![a, b],
{
    let mut v: Vec<i64> = Vec::new();
    v.push(a);
    v.push(b);
    v
}

/// A vector of three extents.
pub fn extents3(a: i64, b: i64, c: i64) -> (v: Vec<i64>)
    ensures
        v@ == seq![a, b, c],
{
    let mut v: Vec<i64> = Vec::new();
    v.push(a);
    v.push(b);
    v.push(c);
    v
}

/// A vector of four extents.
pub fn extents4(a: i64, b: i64, c: i64, d: i64) -> (v: Vec<i64>)
    ensures
        v@ == seq![a, b, c, d],
{
    let mut v: Vec<i64> = Vec::new();
    v.push(a);
    v.push(b);
    v.push(c);
    v.push(d);
    v
}

/// One pass of the attention core, laid out for whoever does the arithmetic.
#[derive(Debug)]
pub struct CorePlan {
    /// Extents of the content scores, of the segment scores and of the
    /// positional scores after the shift: `[batch, heads, query_len, key_len]`.
    pub scores: Vec<i64>,
    /// Extents of the positional scores before the shift:
    /// `[batch, heads, query_len, pos_len]`.
    pub positional: Vec<i64>,
    /// Number of columns that the shift keeps.
    pub key_len: i64,
    /// Whether segment scores are computed and added; they count as zero otherwise.
    pub segment_term: bool,
    /// Whether a mask is taken off the scores before the softmax.
    pub masked: bool,
    /// Whether dropout is applied to the probabilities.
    pub dropout: bool,
    /// Extents of the attention output: `[query_len, batch, heads, head_dim]`.
    pub attention: Vec<i64>,
    /// Extents of the probabilities handed back, if any are:
    /// `[batch, heads, query_len, key_len]`.
    pub probabilities: Option<Vec<i64>>,
}

/// A `CorePlan` as plain mathematics.
pub struct CorePlanView {
    pub scores: Seq<i64>,
    pub positional: Seq<i64>,
    pub key_len: int,
    pub segment_term: bool,
    pub masked: bool,
    pub dropout: bool,
    pub attention: Seq<i64>,
    pub probabilities: Option<Seq<i64>>,
}

impl View for CorePlan {
    type V = CorePlanView;

    open spec fn view(&self) -> CorePlanView {
        CorePlanView {
            scores: self.scores@,
            positional: self.positional@,
            key_len: self.key_len as int,
            segment_term: self.segment_term,
            masked: self.masked,
            dropout: self.dropout,
            attention: self.attention@,
            probabilities: match self.probabilities {
                Some(v) => Some(v@),
                None => None,
            },
        }
    }
}

/// The projection after attention, laid out.
#[derive(Debug)]
pub struct PostPlan {
    /// Extents of the result: `[length, batch, hidden]`.
    pub output: Vec<i64>,
    /// Whether dropout is applied to the projected output.
    pub dropout: bool,
    /// Whether the input of the layer is added before normalising.
    pub residual: bool,
}

/// A `PostPlan` as plain mathematics.
pub struct PostPlanView {
    pub output: Seq<i64>,
    pub dropout: bool,
    pub residual: bool,
}

impl View for PostPlan {
    type V = PostPlanView;

    open spec fn view(&self) -> PostPlanView {
        PostPlanView { output: self.output@, dropout: self.dropout, residual: self.residual }
    }
}

/// The query stream's part of a forward step.
#[derive(Debug)]
pub struct QueryPlan {
    /// Whether the queries go through the target mapping before the core,
    /// and the attention output back through it afterwards.
    pub map_targets: bool,
    /// The pass of the attention core for the query stream.
    pub core: CorePlan,
    /// The projection after attention for the query stream.
    pub output_g: PostPlan,
}

/// A `QueryPlan` as plain mathematics.
pub struct QueryPlanView {
    pub map_targets: bool,
    pub core: CorePlanView,
    pub output_g: PostPlanView,
}

impl View for QueryPlan {
    type V = QueryPlanView;

    open spec fn view(&self) -> QueryPlanView {
        QueryPlanView {
            map_targets: self.map_targets,
            core: self.core@,
            output_g: self.output_g@,
        }
    }
}

/// Which streams a forward step runs.
#[derive(Clone, Copy, Debug, PartialEq, Eq, Structural)]
pub enum StreamMode {
    /// The content stream alone.
    ContentOnly,
    /// The content stream and the query stream.
    ContentAndQuery,
}

/// One forward step of the layer, laid out.
#[derive(Debug)]
pub struct ForwardPlan {
    /// Whether cached content goes in front of the input before keys and
    /// values are made.
    pub extend_keys: bool,
    /// Extents of the content that keys and values are made from:
    /// `[key_len, batch, hidden]`.
    pub keys: Vec<i64>,
    /// The pass of the attention core for the content stream.
    pub content: CorePlan,
    /// The projection after attention for the content stream.
    pub output_h: PostPlan,
    /// The query stream's part, where there is a query stream.
    pub query: Option<QueryPlan>,
}

/// A `ForwardPlan` as plain mathematics.
pub struct ForwardPlanView {
    pub extend_keys: bool,
    pub keys: Seq<i64>,
    pub content: CorePlanView,
    pub output_h: PostPlanView,
    pub query: Option<QueryPlanView>,
}

impl View for ForwardPlan {
    type V = ForwardPlanView;

    open spec fn view(&self) -> ForwardPlanView {
        ForwardPlanView {
            extend_keys: self.extend_keys,
            keys: self.keys@,
            content: self.content@,
            output_h: self.output_h@,
            query: match self.query {
                Some(q) => Some(q@),
                None => None,
            },
        }
    }
}

impl ForwardPlan {
    /// Which streams the step runs.
    pub fn mode(&self) -> (m: StreamMode)
        ensures
            m == if self.query is Some {
                StreamMode::ContentAndQuery
            } else {
                StreamMode::ContentOnly
            },
    {
        if self.query.is_some() {
            StreamMode::ContentAndQuery
        } else {
            StreamMode::ContentOnly
        }
    }
}

} // verus!
