//! The relative attention layer, worked out on tensor extents.
//!
//! A forward pass contracts, adds and normalises floating-point tensors. None
//! of that arithmetic happens here. What happens here is everything that can
//! go wrong before it and everything that is decided around it: whether the
//! tensors fit each other and the layer, which optional terms take part, and
//! the extents of every result.

use vstd::prelude::*;
use crate::error::AttentionError;
use crate::plan::{
    CorePlan, CorePlanView, ForwardPlan, ForwardPlanView, PostPlan, PostPlanView, QueryPlan,
    QueryPlanView, extents2, extents3, extents4,
};

verus! {

/// The bit pattern of the IEEE 754 double `1e-12`, the stability term of the
/// layer normalisation where the configuration names none.
pub const DEFAULT_LAYER_NORM_EPS_BITS: u64 = 0x3d71_9799_812d_ea11;

/// Hyperparameters of one attention layer.
///
/// The two floating-point settings travel as the bit patterns of IEEE 754
/// doubles: this crate hands them through and never computes with them.
#[derive(Clone, Copy, Debug)]
pub struct XLNetConfig {
    /// Width of a hidden state.
    pub d_model: i64,
    /// Number of attention heads.
    pub n_head: i64,
    /// Width of one head.
    pub d_head: i64,
    /// Dropout probability, as bits.
    pub dropout_bits: u64,
    /// Stability term of the layer normalisation, as bits.
    pub layer_norm_eps_bits: Option<u64>,
    /// Whether a pass reports its attention probabilities.
    pub output_attentions: Option<bool>,
}

/// The learned tensors of the layer, by what they are for.
#[derive(Clone, Copy, Debug, PartialEq, Eq, Structural)]
pub enum Parameter {
    /// Projection of hidden states to queries.
    Q,
    /// Projection of hidden states to content keys.
    K,
    /// Projection of hidden states to values.
    V,
    /// Projection of attention output back to hidden states.
    O,
    /// Projection of position embeddings to positional keys.
    R,
    /// Bias added to queries before they meet positional keys.
    RRBias,
    /// Bias added to queries before they meet segment embeddings.
    RSBias,
    /// Bias added to queries before they meet content keys.
    RWBias,
    /// Segment embeddings.
    SegEmbed,
}

impl Parameter {
    /// The name under which the weight store holds the tensor.
    pub open spec fn path(self) -> Seq<char> {
        match self {
            Parameter::Q => "q"@,
            Parameter::K => "k"@,
            Parameter::V => "v"@,
            Parameter::O => "o"@,
            Parameter::R => "r"@,
            Parameter::RRBias => "r_r_bias"@,
            Parameter::RSBias => "r_s_bias"@,
            Parameter::RWBias => "r_w_bias"@,
            Parameter::SegEmbed => "seg_embed"@,
        }
    }

    /// Whether the tensor projects between hidden states and heads; the
    /// others hold one vector for each head.
    pub open spec fn is_projection(self) -> bool {
        self == Parameter::Q || self == Parameter::K || self == Parameter::V || self
            == Parameter::O || self == Parameter::R
    }

    /// The name under which the weight store holds the tensor.
    pub fn name(&self) -> (text: &'static str)
        ensures
            text@ == self.path(),
    {
        match self {
            Parameter::Q => "q",
            Parameter::K => "k",
            Parameter::V => "v",
            Parameter::O => "o",
            Parameter::R => "r",
            Parameter::RRBias => "r_r_bias",
            Parameter::RSBias => "r_s_bias",
            Parameter::RWBias => "r_w_bias",
            Parameter::SegEmbed => "seg_embed",
        }
    }
}

/// What a layer keeps from earlier decoding steps: the extents of the hidden
/// content that it has already seen, `[length, batch, hidden]`. A cache with
/// at most one extent holds nothing.
#[derive(Debug)]
pub struct LayerState {
    /// Extents of the cached content.
    pub prev_content: Vec<i64>,
}

impl LayerState {
    /// A cache that holds nothing yet: a single extent of 0.
    pub fn empty() -> (state: LayerState)
        ensures
            state.prev_content@ == seq![0i64],
            !holds_content(Some(state.prev_content@)),
    {
        let mut prev_content: Vec<i64> = Vec::new();
        prev_content.push(0);
        LayerState { prev_content }
    }

    /// Whether the cache holds content to put in front of new input.
    pub fn has_content(&self) -> (b: bool)
        ensures
            b == holds_content(Some(self.prev_content@)),
    {
        self.prev_content.len() > 1
    }

    /// The cache after input of extents `h` has gone through the layer: what
    /// it held, followed by `h`. The old cache is left as it is.
    ///
    /// Fails with `ShapeMismatch` unless `h` has three extents, none of the
    /// first two below 0, and what the cache holds fits in front of it.
    pub fn extended(&self, h: &Vec<i64>) -> (res: Result<LayerState, AttentionError>)
        ensures
            res is Ok <==> h@.len() == 3 && h@[0] >= 0 && h@[1] >= 0 && cache_fits(
                h@,
                Some(self.prev_content@),
            ),
            res matches Err(e) ==> e == AttentionError::ShapeMismatch,
            res matches Ok(state) ==> state.prev_content@ == key_content(
                h@,
                Some(self.prev_content@),
            ),
    {
        if h.len() != 3 || h[0] < 0 || h[1] < 0 {
            return Err(AttentionError::ShapeMismatch);
        }
        if self.prev_content.len() <= 1 {
            let prev_content = extents3(h[0], h[1], h[2]);
            return Ok(LayerState { prev_content });
        }
        if self.prev_content.len() != 3 || self.prev_content[0] < 0 || self.prev_content[1] != h[1]
            || self.prev_content[2] != h[2] {
            return Err(AttentionError::ShapeMismatch);
        }
        match self.prev_content[0].checked_add(h[0]) {
            Some(total) => Ok(LayerState { prev_content: extents3(total, h[1], h[2]) }),
            None => Err(AttentionError::ShapeMismatch),
        }
    }
}

/// The extents of an optional tensor.
pub open spec fn extents_of(x: Option<&Vec<i64>>) -> Option<Seq<i64>> {
    match x {
        Some(v) => Some(v@),
        None => None,
    }
}

/// The extents of the content in an optional cache.
pub open spec fn cached(state: Option<LayerState>) -> Option<Seq<i64>> {
    match state {
        Some(s) => Some(s.prev_content@),
        None => None,
    }
}

/// Whether a mask, read as `[query, key, batch, head]`, can be taken off
/// scores of these extents: each of its extents is the matching one of the
/// scores, or 1.
pub open spec fn mask_fits(mask: Seq<i64>, query_len: int, key_len: int, batch: int, heads: int)
    -> bool {
    &&& mask.len() == 4
    &&& (mask[0] == query_len || mask[0] == 1)
    &&& (mask[1] == key_len || mask[1] == 1)
    &&& (mask[2] == batch || mask[2] == 1)
    &&& (mask[3] == heads || mask[3] == 1)
}

/// Whether a segment matrix, read as `[query, key, batch, segment]`, goes with
/// scores of these extents.
pub open spec fn segments_fit(seg: Seq<i64>, query_len: int, key_len: int, batch: int) -> bool {
    &&& seg.len() == 4
    &&& seg[0] == query_len
    &&& seg[1] == key_len
    &&& seg[2] == batch
    &&& seg[3] >= 0
}

/// Whether the attention core can run on tensors of these extents.
///
/// Queries `q`, content keys `k`, values `v` and positional keys `r` are read
/// as `[length, batch, heads, head_dim]`. There is at least one query. Keys
/// and values have the same extents; batch, heads and head width are those
/// of the queries and of the layer. There is one positional key for every
/// relative offset between a query and a key: `r[0] == k[0] + q[0]`, so that
/// the shift has a column for each key position in every query row.
pub open spec fn core_accepts(
    heads: int,
    head_dim: int,
    q: Seq<i64>,
    k: Seq<i64>,
    v: Seq<i64>,
    r: Seq<i64>,
    seg: Option<Seq<i64>>,
    mask: Option<Seq<i64>>,
) -> bool {
    &&& q.len() == 4 && k.len() == 4 && v.len() == 4 && r.len() == 4
    &&& q[0] >= 1 && q[1] >= 0 && q[2] == heads && q[3] == head_dim
    &&& k[0] >= 0 && k[1] == q[1] && k[2] == heads && k[3] == head_dim
    &&& v[0] == k[0] && v[1] == k[1] && v[2] == k[2] && v[3] == k[3]
    &&& r[0] == k[0] + q[0] && r[1] == q[1] && r[2] == heads && r[3] == head_dim
    &&& seg matches Some(s) ==> segments_fit(s, q[0] as int, k[0] as int, q[1] as int)
    &&& mask matches Some(m) ==> mask_fits(m, q[0] as int, k[0] as int, q[1] as int, heads)
}

/// The pass that the attention core makes on queries `q`, content keys `k`
/// and positional keys `r`.
pub open spec fn core_plan(
    q: Seq<i64>,
    k: Seq<i64>,
    r: Seq<i64>,
    segments: bool,
    masked: bool,
    train: bool,
    report: bool,
) -> CorePlanView {
    CorePlanView {
        scores: seq![q[1], q[2], q[0], k[0]],
        positional: seq![q[1], q[2], q[0], r[0]],
        key_len: k[0] as int,
        segment_term: segments,
        masked: masked,
        dropout: train,
        attention: seq![q[0], q[1], q[2], q[3]],
        probabilities: if report {
            Some(seq![q[1], q[2], q[0], k[0]])
        } else {
            None
        },
    }
}

/// Whether attention output `attention`, read as
/// `[length, batch, heads, head_dim]`, can be projected back, and `h` added
/// to it where `residual` asks for that.
pub open spec fn post_accepts(
    hidden: int,
    heads: int,
    head_dim: int,
    h: Seq<i64>,
    attention: Seq<i64>,
    residual: bool,
) -> bool {
    &&& attention.len() == 4
    &&& attention[0] >= 0 && attention[1] >= 0
    &&& attention[2] == heads && attention[3] == head_dim
    &&& residual ==> {
        &&& h.len() == 3
        &&& h[0] == attention[0]
        &&& h[1] == attention[1]
        &&& h[2] == hidden
    }
}

/// Whether a cache holds content: it is there and has more than one extent.
pub open spec fn holds_content(state: Option<Seq<i64>>) -> bool {
    state matches Some(p) && p.len() > 1
}

/// Whether cached content can go in front of input `h`: it has a length
/// and the batch and width of `h`, and the two lengths add up to an `i64`.
pub open spec fn cache_fits(h: Seq<i64>, state: Option<Seq<i64>>) -> bool {
    state matches Some(p) ==> (p.len() > 1 ==> {
        &&& p.len() == 3
        &&& p[0] >= 0
        &&& p[1] == h[1]
        &&& p[2] == h[2]
        &&& p[0] + h[0] <= i64::MAX
    })
}

/// Extents of the content that keys and values are made from: the cached
/// content followed by `h` where the cache holds any, else `h` alone.
pub open spec fn key_content(h: Seq<i64>, state: Option<Seq<i64>>) -> Seq<i64> {
    match state {
        Some(p) => if p.len() > 1 {
            seq![(p[0] + h[0]) as i64, h[1], h[2]]
        } else {
            h
        },
        None => h,
    }
}

/// Extents of hidden states `x` after a projection to heads.
pub open spec fn in_heads(x: Seq<i64>, heads: int, head_dim: int) -> Seq<i64> {
    seq![x[0], x[1], heads as i64, head_dim as i64]
}

/// Whether a target mapping, read as `[predicted, position, batch]`, goes
/// with a query stream of extents `g`.
pub open spec fn mapping_fits(g: Seq<i64>, mapping: Seq<i64>) -> bool {
    &&& mapping.len() == 3
    &&& mapping[0] == g[0]
    &&& mapping[1] >= 0
    &&& mapping[2] == g[1]
}

/// Extents of the queries that the query stream hands to the core: one for
/// each position where a target mapping spreads them out, else one for each
/// entry of the stream.
pub open spec fn query_heads(g: Seq<i64>, mapping: Option<Seq<i64>>, heads: int, head_dim: int)
    -> Seq<i64> {
    match mapping {
        Some(m) => seq![m[1], g[1], heads as i64, head_dim as i64],
        None => in_heads(g, heads, head_dim),
    }
}

/// Whether something that only the query stream uses is given without one.
pub open spec fn stream_missing(
    g: Option<Seq<i64>>,
    mask_g: Option<Seq<i64>>,
    mapping: Option<Seq<i64>>,
) -> bool {
    g is None && (mask_g is Some || mapping is Some)
}

/// Whether a configuration describes a layer: positive widths and head
/// count, and a hidden width that the heads divide evenly.
pub open spec fn config_fits(config: XLNetConfig) -> bool {
    &&& config.d_model > 0
    &&& config.n_head > 0
    &&& config.d_head > 0
    &&& config.d_model % config.n_head == 0
}

/// One relative attention layer: its widths and settings, without its
/// weights.
#[derive(Debug)]
pub struct XLNetRelativeAttention {
    num_attention_heads: i64,
    attention_head_size: i64,
    hidden_size: i64,
    dropout_bits: u64,
    layer_norm_eps_bits: u64,
    output_attentions: bool,
}

impl XLNetRelativeAttention {
    #[verifier::type_invariant]
    spec fn well_formed(self) -> bool {
        &&& self.hidden_size > 0
        &&& self.num_attention_heads > 0
        &&& self.attention_head_size > 0
        &&& self.hidden_size % self.num_attention_heads == 0
    }

    /// Number of attention heads.
    pub closed spec fn heads(self) -> int {
        self.num_attention_heads as int
    }

    /// Width of one head.
    pub closed spec fn head_dim(self) -> int {
        self.attention_head_size as int
    }

    /// Width of a hidden state.
    pub closed spec fn hidden(self) -> int {
        self.hidden_size as int
    }

    /// Whether a pass reports its attention probabilities.
    pub closed spec fn reports(self) -> bool {
        self.output_attentions
    }

    /// Dropout probability, as bits.
    pub closed spec fn dropout(self) -> u64 {
        self.dropout_bits
    }

    /// Stability term of the layer normalisation, as bits.
    pub closed spec fn layer_norm_eps(self) -> u64 {
        self.layer_norm_eps_bits
    }

    /// The extents that the tensor `which` has in a layer of these widths:
    /// `[hidden, heads, head_dim]` for a projection, `[heads, head_dim]` for
    /// the others.
    pub open spec fn parameter_extents(self, which: Parameter) -> Seq<i64> {
        if which.is_projection() {
            seq![self.hidden() as i64, self.heads() as i64, self.head_dim() as i64]
        } else {
            seq![self.heads() as i64, self.head_dim() as i64]
        }
    }

    /// A layer for `config`.
    ///
    /// Fails with `ShapeMismatch` unless the three widths are positive and
    /// the head count divides the hidden width. Attention probabilities are
    /// reported only if the configuration asks for them, and the stability
    /// term is `1e-12` unless it names another.
    pub fn new(config: &XLNetConfig) -> (res: Result<XLNetRelativeAttention, AttentionError>)
        ensures
            res is Ok <==> config_fits(*config),
            res matches Err(e) ==> e == AttentionError::ShapeMismatch,
            res matches Ok(layer) ==> {
                &&& layer.hidden() == config.d_model
                &&& layer.heads() == config.n_head
                &&& layer.head_dim() == config.d_head
                &&& layer.dropout() == config.dropout_bits
                &&& layer.reports() == (config.output_attentions == Some(true))
                &&& layer.layer_norm_eps() == match config.layer_norm_eps_bits {
                    Some(bits) => bits,
                    None => DEFAULT_LAYER_NORM_EPS_BITS,
                }
            },
    {
        if config.d_model <= 0 || config.n_head <= 0 || config.d_head <= 0 {
            return Err(AttentionError::ShapeMismatch);
        }
        if config.d_model % config.n_head != 0 {
            return Err(AttentionError::ShapeMismatch);
        }
        let output_attentions = match config.output_attentions {
            Some(value) => value,
            None => false,
        };
        let layer_norm_eps_bits = match config.layer_norm_eps_bits {
            Some(value) => value,
            None => DEFAULT_LAYER_NORM_EPS_BITS,
        };
        Ok(
            XLNetRelativeAttention {
                num_attention_heads: config.n_head,
                attention_head_size: config.d_head,
                hidden_size: config.d_model,
                dropout_bits: config.dropout_bits,
                layer_norm_eps_bits,
                output_attentions,
            },
        )
    }

    /// Number of attention heads.
    pub fn num_attention_heads(&self) -> (n: i64)
        ensures
            n == self.heads(),
            n > 0,
    {
        proof {
            use_type_invariant(self);
        }
        self.num_attention_heads
    }

    /// Width of one head.
    pub fn attention_head_size(&self) -> (n: i64)
        ensures
            n == self.head_dim(),
            n > 0,
    {
        proof {
            use_type_invariant(self);
        }
        self.attention_head_size
    }

    /// Width of a hidden state.
    pub fn hidden_size(&self) -> (n: i64)
        ensures
            n == self.hidden(),
            n > 0,
            n as int % self.heads() == 0,
    {
        proof {
            use_type_invariant(self);
        }
        self.hidden_size
    }

    /// Whether a pass reports its attention probabilities.
    pub fn output_attentions(&self) -> (b: bool)
        ensures
            b == self.reports(),
    {
        self.output_attentions
    }

    /// Dropout probability, as the bits of a double.
    pub fn dropout_bits(&self) -> (bits: u64)
        ensures
            bits == self.dropout(),
    {
        self.dropout_bits
    }

    /// Stability term of the layer normalisation, as the bits of a double.
    pub fn layer_norm_eps_bits(&self) -> (bits: u64)
        ensures
            bits == self.layer_norm_eps(),
    {
        self.layer_norm_eps_bits
    }

    /// The extents over which the layer normalisation runs: the hidden width.
    pub fn layer_norm_extents(&self) -> (v: Vec<i64>)
        ensures
            v@ == seq![self.hidden() as i64],
    {
        let mut v: Vec<i64> = Vec::new();
        v.push(self.hidden_size);
        v
    }

    /// The extents that the weight store must hold for the tensor `which`.
    pub fn parameter_shape(&self, which: Parameter) -> (v: Vec<i64>)
        ensures
            v@ == self.parameter_extents(which),
    {
        match which {
            Parameter::Q | Parameter::K | Parameter::V | Parameter::O | Parameter::R => extents3(
                self.hidden_size,
                self.num_attention_heads,
                self.attention_head_size,
            ),
            Parameter::RRBias | Parameter::RSBias | Parameter::RWBias | Parameter::SegEmbed => {
                extents2(self.num_attention_heads, self.attention_head_size)
            },
        }
    }

    /// Plans one pass of the attention core: content scores, positional
    /// scores with their shift, segment scores where a segment matrix is
    /// given, scaling, masking where a mask is given, softmax over the keys,
    /// dropout when training, and the weighted sum of the values.
    ///
    /// Each argument holds the extents of the tensor of that name. Fails with
    /// `ShapeMismatch` unless `core_accepts` holds of them. The attention
    /// output then has the extents `[query_len, batch, heads, head_dim]`, and
    /// the probabilities, handed back only by a layer that reports them,
    /// `[batch, heads, query_len, key_len]`.
    pub fn rel_attention_core(
        &self,
        q_head: &Vec<i64>,
        k_head_h: &Vec<i64>,
        v_head_h: &Vec<i64>,
        k_head_r: &Vec<i64>,
        seg_mat: Option<&Vec<i64>>,
        attention_mask: Option<&Vec<i64>>,
        train: bool,
    ) -> (res: Result<CorePlan, AttentionError>)
        ensures
            res is Ok <==> core_accepts(
                self.heads(),
                self.head_dim(),
                q_head@,
                k_head_h@,
                v_head_h@,
                k_head_r@,
                extents_of(seg_mat),
                extents_of(attention_mask),
            ),
            res matches Err(e) ==> e == AttentionError::ShapeMismatch,
            res matches Ok(plan) ==> plan@ == core_plan(
                q_head@,
                k_head_h@,
                k_head_r@,
                seg_mat is Some,
                attention_mask is Some,
                train,
                self.reports(),
            ),
            res matches Ok(plan) ==> plan.attention@ == seq![
                q_head@[0],
                q_head@[1],
                self.heads() as i64,
                self.head_dim() as i64,
            ],
            res matches Ok(plan) ==> (plan.probabilities matches Some(p) ==> p@ == seq![
                q_head@[1],
                self.heads() as i64,
                q_head@[0],
                k_head_h@[0],
            ]),
            res matches Ok(plan) ==> (plan.probabilities is Some <==> self.reports()),
            res matches Ok(plan) ==> 0 <= plan.key_len < plan.positional@[3] && plan.key_len
                + q_head@[0] == plan.positional@[3],
    {
        if q_head.len() != 4 || k_head_h.len() != 4 || v_head_h.len() != 4 || k_head_r.len() != 4 {
            return Err(AttentionError::ShapeMismatch);
        }
        let heads = self.num_attention_heads;
        let head_dim = self.attention_head_size;
        let query_len = q_head[0];
        let batch = q_head[1];
        let key_len = k_head_h[0];
        if query_len < 1 || batch < 0 || q_head[2] != heads || q_head[3] != head_dim {
            return Err(AttentionError::ShapeMismatch);
        }
        if key_len < 0 || k_head_h[1] != batch || k_head_h[2] != heads || k_head_h[3] != head_dim {
            return Err(AttentionError::ShapeMismatch);
        }
        if v_head_h[0] != key_len || v_head_h[1] != batch || v_head_h[2] != heads || v_head_h[3]
            != head_dim {
            return Err(AttentionError::ShapeMismatch);
        }
        if k_head_r[1] != batch || k_head_r[2] != heads || k_head_r[3] != head_dim {
            return Err(AttentionError::ShapeMismatch);
        }
        let pos_len = k_head_r[0];
        if pos_len < key_len || pos_len - key_len != query_len {
            return Err(AttentionError::ShapeMismatch);
        }
        if let Some(seg) = seg_mat {
            if seg.len() != 4 || seg[0] != query_len || seg[1] != key_len || seg[2] != batch
                || seg[3] < 0 {
                return Err(AttentionError::ShapeMismatch);
            }
        }
        if let Some(mask) = attention_mask {
            if mask.len() != 4 || (mask[0] != query_len && mask[0] != 1) || (mask[1] != key_len
                && mask[1] != 1) || (mask[2] != batch && mask[2] != 1) || (mask[3] != heads
                && mask[3] != 1) {
                return Err(AttentionError::ShapeMismatch);
            }
        }
        let probabilities = if self.output_attentions {
            Some(extents4(batch, heads, query_len, key_len))
        } else {
            None
        };
        Ok(
            CorePlan {
                scores: extents4(batch, heads, query_len, key_len),
                positional: extents4(batch, heads, query_len, pos_len),
                key_len,
                segment_term: seg_mat.is_some(),
                masked: attention_mask.is_some(),
                dropout: train,
                attention: extents4(query_len, batch, heads, head_dim),
                probabilities,
            },
        )
    }

    /// Plans the projection after attention: the attention output goes back
    /// to the hidden width, through dropout when training, has `h` added
    /// where `residual` is set, and is normalised over the hidden width.
    ///
    /// `h` and `attention_vector` hold extents. Fails with `ShapeMismatch`
    /// unless `post_accepts` holds of them; `h` is looked at only where
    /// `residual` is set.
    pub fn post_attention(
        &self,
        h: &Vec<i64>,
        attention_vector: &Vec<i64>,
        residual: bool,
        train: bool,
    ) -> (res: Result<PostPlan, AttentionError>)
        ensures
            res is Ok <==> post_accepts(
                self.hidden(),
                self.heads(),
                self.head_dim(),
                h@,
                attention_vector@,
                residual,
            ),
            res matches Err(e) ==> e == AttentionError::ShapeMismatch,
            res matches Ok(plan) ==> plan@ == (PostPlanView {
                output: seq![attention_vector@[0], attention_vector@[1], self.hidden() as i64],
                dropout: train,
                residual: residual,
            }),
    {
        if attention_vector.len() != 4 {
            return Err(AttentionError::ShapeMismatch);
        }
        let length = attention_vector[0];
        let batch = attention_vector[1];
        if length < 0 || batch < 0 || attention_vector[2] != self.num_attention_heads
            || attention_vector[3] != self.attention_head_size {
            return Err(AttentionError::ShapeMismatch);
        }
        if residual {
            if h.len() != 3 || h[0] != length || h[1] != batch || h[2] != self.hidden_size {
                return Err(AttentionError::ShapeMismatch);
            }
        }
        Ok(PostPlan { output: extents3(length, batch, self.hidden_size), dropout: train, residual })
    }

    /// Whether a forward step can run on tensors of these extents.
    ///
    /// Input `h`, query stream `g` and position embeddings `r` are read as
    /// `[length, batch, hidden]`. The content stream must pass
    /// `core_accepts` with `h` as queries, and the query stream, where there
    /// is one, with its own queries; both meet the same keys, values and
    /// positional keys.
    pub open spec fn forward_accepts(
        self,
        h: Seq<i64>,
        g: Option<Seq<i64>>,
        mask_h: Option<Seq<i64>>,
        mask_g: Option<Seq<i64>>,
        r: Seq<i64>,
        seg: Option<Seq<i64>>,
        state: Option<Seq<i64>>,
        mapping: Option<Seq<i64>>,
    ) -> bool {
        let keys = in_heads(key_content(h, state), self.heads(), self.head_dim());
        let pos = in_heads(r, self.heads(), self.head_dim());
        &&& h.len() == 3 && h[0] >= 0 && h[1] >= 0 && h[2] == self.hidden()
        &&& cache_fits(h, state)
        &&& r.len() == 3 && r[2] == self.hidden()
        &&& core_accepts(
            self.heads(),
            self.head_dim(),
            in_heads(h, self.heads(), self.head_dim()),
            keys,
            keys,
            pos,
            seg,
            mask_h,
        )
        &&& g matches Some(gs) ==> {
            &&& gs.len() == 3 && gs[0] >= 0 && gs[1] == h[1] && gs[2] == self.hidden()
            &&& mapping matches Some(m) ==> mapping_fits(gs, m)
            &&& core_accepts(
                self.heads(),
                self.head_dim(),
                query_heads(gs, mapping, self.heads(), self.head_dim()),
                keys,
                keys,
                pos,
                seg,
                mask_g,
            )
        }
    }

    /// The forward step on tensors of these extents.
    pub open spec fn forward_plan(
        self,
        h: Seq<i64>,
        g: Option<Seq<i64>>,
        mask_h: Option<Seq<i64>>,
        mask_g: Option<Seq<i64>>,
        r: Seq<i64>,
        seg: Option<Seq<i64>>,
        state: Option<Seq<i64>>,
        mapping: Option<Seq<i64>>,
        train: bool,
    ) -> ForwardPlanView {
        let keys = in_heads(key_content(h, state), self.heads(), self.head_dim());
        let pos = in_heads(r, self.heads(), self.head_dim());
        ForwardPlanView {
            extend_keys: holds_content(state),
            keys: key_content(h, state),
            content: core_plan(
                in_heads(h, self.heads(), self.head_dim()),
                keys,
                pos,
                seg is Some,
                mask_h is Some,
                train,
                self.reports(),
            ),
            output_h: PostPlanView {
                output: seq![h[0], h[1], self.hidden() as i64],
                dropout: train,
                residual: true,
            },
            query: match g {
                Some(gs) => Some(
                    QueryPlanView {
                        map_targets: mapping is Some,
                        core: core_plan(
                            query_heads(gs, mapping, self.heads(), self.head_dim()),
                            keys,
                            pos,
                            seg is Some,
                            mask_g is Some,
                            train,
                            self.reports(),
                        ),
                        output_g: PostPlanView {
                            output: seq![gs[0], gs[1], self.hidden() as i64],
                            dropout: train,
                            residual: true,
                        },
                    },
                ),
                None => None,
            },
        }
    }

    /// Plans one forward step of the layer.
    ///
    /// Each argument holds the extents of the tensor of that name. Cached
    /// content, where `layer_state` holds any, goes in front of `h` before
    /// keys and values are made. The content stream always runs, with `h` as
    /// queries. With a query stream `g` the query stream runs too, against
    /// the same keys and values, through `target_mapping` and back where one
    /// is given. Each stream ends in its projection, with its own input added
    /// back.
    ///
    /// Fails with `MissingStream` where `attn_mask_g` or `target_mapping` is
    /// given without `g`, and otherwise with `ShapeMismatch` unless
    /// `forward_accepts` holds.
    pub fn forward_t(
        &self,
        h: &Vec<i64>,
        g: Option<&Vec<i64>>,
        attn_mask_h: Option<&Vec<i64>>,
        attn_mask_g: Option<&Vec<i64>>,
        r: &Vec<i64>,
        seg_mat: Option<&Vec<i64>>,
        layer_state: Option<LayerState>,
        target_mapping: Option<&Vec<i64>>,
        train: bool,
    ) -> (res: Result<ForwardPlan, AttentionError>)
        ensures
            res is Ok <==> {
                &&& !stream_missing(
                    extents_of(g),
                    extents_of(attn_mask_g),
                    extents_of(target_mapping),
                )
                &&& self.forward_accepts(
                    h@,
                    extents_of(g),
                    extents_of(attn_mask_h),
                    extents_of(attn_mask_g),
                    r@,
                    extents_of(seg_mat),
                    cached(layer_state),
                    extents_of(target_mapping),
                )
            },
            res matches Err(e) ==> e == if stream_missing(
                extents_of(g),
                extents_of(attn_mask_g),
                extents_of(target_mapping),
            ) {
                AttentionError::MissingStream
            } else {
                AttentionError::ShapeMismatch
            },
            res matches Ok(plan) ==> plan@ == self.forward_plan(
                h@,
                extents_of(g),
                extents_of(attn_mask_h),
                extents_of(attn_mask_g),
                r@,
                extents_of(seg_mat),
                cached(layer_state),
                extents_of(target_mapping),
                train,
            ),
    {
        if g.is_none() && (attn_mask_g.is_some() || target_mapping.is_some()) {
            return Err(AttentionError::MissingStream);
        }
        if h.len() != 3 {
            return Err(AttentionError::ShapeMismatch);
        }
        let length = h[0];
        let batch = h[1];
        let hidden = self.hidden_size;
        let heads = self.num_attention_heads;
        let head_dim = self.attention_head_size;
        if length < 0 || batch < 0 || h[2] != hidden {
            return Err(AttentionError::ShapeMismatch);
        }
        let mut extend_keys = false;
        let mut key_len = length;
        if let Some(mems) = &layer_state {
            if mems.prev_content.len() > 1 {
                if mems.prev_content.len() != 3 {
                    return Err(AttentionError::ShapeMismatch);
                }
                let prior = mems.prev_content[0];
                if prior < 0 || mems.prev_content[1] != batch || mems.prev_content[2] != hidden {
                    return Err(AttentionError::ShapeMismatch);
                }
                key_len = match prior.checked_add(length) {
                    Some(total) => total,
                    None => {
                        return Err(AttentionError::ShapeMismatch);
                    },
                };
                extend_keys = true;
            }
        }
        if r.len() != 3 || r[2] != hidden {
            return Err(AttentionError::ShapeMismatch);
        }
        let keys = extents3(key_len, batch, hidden);
        assert(keys@ =~= key_content(h@, cached(layer_state)));
        let q_head_h = extents4(length, batch, heads, head_dim);
        let k_head_h = extents4(key_len, batch, heads, head_dim);
        let k_head_r = extents4(r[0], r[1], heads, head_dim);
        let content = match self.rel_attention_core(
            &q_head_h,
            &k_head_h,
            &k_head_h,
            &k_head_r,
            seg_mat,
            attn_mask_h,
            train,
        ) {
            Ok(plan) => plan,
            Err(e) => {
                return Err(e);
            },
        };
        let output_h = match self.post_attention(h, &q_head_h, true, train) {
            Ok(plan) => plan,
            Err(e) => {
                return Err(e);
            },
        };
        let query = match g {
            None => None,
            Some(gs) => {
                if gs.len() != 3 || gs[0] < 0 || gs[1] != batch || gs[2] != hidden {
                    return Err(AttentionError::ShapeMismatch);
                }
                let query_len = match target_mapping {
                    Some(mapping) => {
                        if mapping.len() != 3 || mapping[0] != gs[0] || mapping[1] < 0
                            || mapping[2] != batch {
                            return Err(AttentionError::ShapeMismatch);
                        }
                        mapping[1]
                    },
                    None => gs[0],
                };
                let q_head_g = extents4(query_len, batch, heads, head_dim);
                let core = match self.rel_attention_core(
                    &q_head_g,
                    &k_head_h,
                    &k_head_h,
                    &k_head_r,
                    seg_mat,
                    attn_mask_g,
                    train,
                ) {
                    Ok(plan) => plan,
                    Err(e) => {
                        return Err(e);
                    },
                };
                let attention_g = extents4(gs[0], batch, heads, head_dim);
                let output_g = match self.post_attention(gs, &attention_g, true, train) {
                    Ok(plan) => plan,
                    Err(e) => {
                        return Err(e);
                    },
                };
                Some(QueryPlan { map_targets: target_mapping.is_some(), core, output_g })
            },
        };
        Ok(ForwardPlan { extend_keys, keys, content, output_h, query })
    }
}

} // verus!
