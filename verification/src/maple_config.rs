//! Maple's configuration, as far as loading and the forward pass read it.

use vstd::prelude::*;

verus! {

/// How a layer attends.
#[derive(Debug, Clone, Copy, PartialEq, Eq, Structural)]
pub enum MapleLayerType {
    /// To the last keys of a window, with rotary positions.
    Sliding,
    /// To all keys, without positions.
    Full,
}

/// Maple's configuration.
#[derive(Debug, PartialEq, Eq)]
pub struct MapleConfig {
    pub vocab_size: usize,
    pub hidden_size: usize,
    pub num_hidden_layers: usize,
    pub num_attention_heads: usize,
    pub num_key_value_heads: usize,
    pub head_dim: usize,
    pub moe_intermediate_size: usize,
    pub num_experts: usize,
    pub num_experts_per_tok: usize,
    /// How many of a head's dimensions are rotated.
    pub rotary_width: usize,
    pub sliding_window: usize,
    pub max_position_embeddings: usize,
    /// Whether the chosen experts' weights are scaled to sum to one.
    pub norm_topk_prob: bool,
    /// The limit of the clamped SwiGLU.
    pub swiglu_clamp: u32,
    pub layer_types: Vec<MapleLayerType>,
}

impl MapleConfig {
    /// One type for each layer, and widths that fit the machine.
    pub open spec fn wf(&self) -> bool {
        &&& self.layer_types@.len() == self.num_hidden_layers
        &&& self.num_attention_heads * self.head_dim <= usize::MAX
        &&& self.num_key_value_heads * self.head_dim <= usize::MAX
        &&& 2 * self.moe_intermediate_size <= usize::MAX
    }

    /// The width of all query heads.
    pub fn q_dim(&self) -> (r: usize)
        requires
            self.wf(),
        ensures
            r == self.num_attention_heads * self.head_dim,
    {
        self.num_attention_heads * self.head_dim
    }

    /// The width of all key heads.
    pub fn kv_dim(&self) -> (r: usize)
        requires
            self.wf(),
        ensures
            r == self.num_key_value_heads * self.head_dim,
    {
        self.num_key_value_heads * self.head_dim
    }

    /// How many of a head's dimensions are rotated.
    pub fn rotary_dim(&self) -> (r: usize)
        ensures
            r == self.rotary_width,
    {
        self.rotary_width
    }

    /// How a layer attends.
    pub fn layer_type(&self, layer: usize) -> (r: MapleLayerType)
        requires
            layer < self.layer_types@.len(),
        ensures
            r == self.layer_types@[layer as int],
    {
        self.layer_types[layer]
    }

    /// Whether a layer is a sliding one.
    pub open spec fn slides(&self, layer: int) -> bool {
        self.layer_types@[layer] == MapleLayerType::Sliding
    }

    /// Whether a layer rotates queries and keys: the sliding layers do.
    pub fn applies_rope(&self, layer: usize) -> (r: bool)
        requires
            layer < self.layer_types@.len(),
        ensures
            r == self.slides(layer as int),
    {
        match self.layer_types[layer] {
            MapleLayerType::Sliding => true,
            MapleLayerType::Full => false,
        }
    }

    /// The attention kernel's window in a layer; zero is none.
    pub open spec fn window_of(&self, layer: int) -> int {
        if self.slides(layer) {
            self.sliding_window as int
        } else {
            0
        }
    }

    /// The attention kernel's window in a layer; zero is none.
    pub fn window(&self, layer: usize) -> (r: usize)
        requires
            layer < self.layer_types@.len(),
        ensures
            r == self.window_of(layer as int),
    {
        match self.layer_types[layer] {
            MapleLayerType::Sliding => self.sliding_window,
            MapleLayerType::Full => 0,
        }
    }

    /// The key positions that a query at `position` attends to: on a sliding
    /// layer the last of a window, on a full layer all up to its own.
    pub fn attention_span(&self, layer: usize, position: usize) -> (r: core::ops::Range<usize>)
        requires
            layer < self.layer_types@.len(),
            position < usize::MAX,
        ensures
            r.end == position + 1,
            r.start == (if self.slides(layer as int) && position + 1 > self.sliding_window {
                position + 1 - self.sliding_window
            } else {
                0
            }),
    {
        let end: usize = position + 1;
        let sliding = self.applies_rope(layer);
        let start: usize = if sliding && end > self.sliding_window {
            end - self.sliding_window
        } else {
            0
        };
        core::ops::Range { start, end }
    }
}

} // verus!
