//! Configuration of the hybrid text model.

use vstd::prelude::*;
use crate::json::{Json, JsonTree};
use crate::qwen3_next::{quantization_of, tensor_quant_params};
use crate::qwen4_attention::attention::{Quantization, Qwen4AttentionConfig, TensorQuantization};
use crate::text::same_text;

verus! {

/// Configuration of the text model.
#[derive(Debug)]
pub struct Qwen4Config {
    pub model_type: String,
    pub hidden_size: usize,
    pub num_hidden_layers: usize,
    pub moe_intermediate_size: usize,
    pub shared_expert_intermediate_size: usize,
    pub num_experts: usize,
    pub num_experts_per_tok: usize,
    pub num_attention_heads: usize,
    pub num_key_value_heads: usize,
    pub head_dim: Option<usize>,
    pub linear_num_value_heads: usize,
    pub linear_num_key_heads: usize,
    pub linear_key_head_dim: usize,
    pub linear_value_head_dim: usize,
    pub linear_conv_kernel_dim: usize,
    pub rope_parameters: Option<Json>,
    pub full_attention_interval: usize,
    pub layer_types: Vec<String>,
    pub hc_count: usize,
    pub hc_lowrank: usize,
    pub ple_layer_ids: Vec<usize>,
    pub ple_embed_dim: usize,
    pub ple_conv_kernel_size: usize,
    pub ngram_size: usize,
    pub heads_per_ngram: usize,
    pub ngram_vocab_size_base: usize,
    pub make_ngram_vocab_size_divisible_by: usize,
    pub split_ngram_parts: usize,
    pub seed: u64,
    pub eos_token_id: Option<i32>,
    pub output_gate_type: String,
    pub tie_word_embeddings: bool,
    pub vocab_size: usize,
    pub max_position_embeddings: usize,
    pub quantization: Option<Quantization>,
}

pub fn default_full_attention_interval() -> (value: usize)
    ensures
        value == 4,
{
    4
}

pub fn default_linear_num_value_heads() -> (value: usize)
    ensures
        value == 64,
{
    64
}

pub fn default_linear_num_key_heads() -> (value: usize)
    ensures
        value == 16,
{
    16
}

pub fn default_linear_key_head_dim() -> (value: usize)
    ensures
        value == 192,
{
    192
}

pub fn default_linear_value_head_dim() -> (value: usize)
    ensures
        value == 128,
{
    128
}

pub fn default_linear_conv_kernel_dim() -> (value: usize)
    ensures
        value == 4,
{
    4
}

pub fn default_hc_count() -> (value: usize)
    ensures
        value == 1,
{
    1
}

pub fn default_hc_lowrank() -> (value: usize)
    ensures
        value == 320,
{
    320
}

pub fn default_ple_conv_kernel_size() -> (value: usize)
    ensures
        value == 4,
{
    4
}

pub fn default_ngram_size() -> (value: usize)
    ensures
        value == 3,
{
    3
}

pub fn default_heads_per_ngram() -> (value: usize)
    ensures
        value == 8,
{
    8
}

pub fn default_ngram_vocab_size_base() -> (value: usize)
    ensures
        value == 20000000,
{
    20000000
}

pub fn default_ngram_divisor() -> (value: usize)
    ensures
        value == 128,
{
    128
}

pub fn default_split_ngram_parts() -> (value: usize)
    ensures
        value == 128,
{
    128
}

pub fn default_seed() -> (value: u64)
    ensures
        value == 1234,
{
    1234
}

pub fn default_output_gate_type() -> (value: String)
    ensures
        value@ == "silu"@,
{
    "silu".to_owned()
}

/// The integers of a list, narrowed to thirty-two bits; what is no integer is left out.
pub open spec fn narrowed_integers(items: Seq<JsonTree>) -> Seq<i32>
    decreases items.len(),
{
    if items.len() == 0 {
        Seq::empty()
    } else {
        let rest = narrowed_integers(items.drop_last());
        match items.last().integer() {
            Some(value) => rest.push(value as i32),
            None => rest,
        }
    }
}

/// Sections of the interleaved rotary axes that rotary parameters name: a list of exactly three
/// integers under its key, else the model's own.
pub open spec fn sections_of(parameters: Option<JsonTree>) -> Seq<i32> {
    match parameters {
        Some(parameters) => match parameters.get("mrope_section"@) {
            Some(JsonTree::List(items)) => if narrowed_integers(items).len() == 3 {
                narrowed_integers(items)
            } else {
                seq![11i32, 11i32, 10i32]
            },
            _ => seq![11i32, 11i32, 10i32],
        },
        None => seq![11i32, 11i32, 10i32],
    }
}

/// The integers of a list, narrowed to thirty-two bits.
fn integers(items: &Vec<Json>) -> (narrowed: Vec<i32>)
    ensures
        narrowed@ == narrowed_integers(Json::List(*items).tree()->List_0),
{
    let ghost tree = Json::List(*items).tree()->List_0;
    let mut narrowed: Vec<i32> = Vec::new();
    let mut index: usize = 0;
    while index < items.len()
        invariant
            index <= items@.len(),
            tree == Json::List(*items).tree()->List_0,
            tree.len() == items@.len(),
            narrowed@ == narrowed_integers(tree.take(index as int)),
        decreases items@.len() - index,
    {
        proof {
            assert(tree.take(index + 1).drop_last() == tree.take(index as int));
            assert(tree.take(index + 1).last() == tree[index as int]);
            assert(tree[index as int] == items@[index as int].tree());
        }
        if let Some(value) = items[index].as_i64() {
            narrowed.push(#[verifier::truncate] (value as i32));
        }
        index = index + 1;
    }
    assert(tree.take(index as int) == tree);
    narrowed
}

impl Qwen4Config {
    /// Group size and bits of a tensor.
    pub fn quant_params(&self, prefix: &str) -> (params: (i32, i32))
        ensures
            params == quantization_of(self.quantization, prefix@),
    {
        tensor_quant_params(&self.quantization, prefix)
    }

    pub open spec fn rope_tree(&self) -> Option<JsonTree> {
        match self.rope_parameters {
            Some(parameters) => Some(parameters.tree()),
            None => None,
        }
    }

    /// Sections of the interleaved rotary axes.
    pub fn mrope_section(&self) -> (sections: Vec<i32>)
        ensures
            sections@ == sections_of(self.rope_tree()),
    {
        if let Some(parameters) = &self.rope_parameters {
            if let Some(Json::List(items)) = parameters.get("mrope_section") {
                let sections: Vec<i32> = integers(items);
                if sections.len() == 3 {
                    return sections;
                }
            }
        }
        vec![11, 11, 10]
    }

    /// Width of an attention head.
    pub open spec fn head_width(&self) -> usize {
        match self.head_dim {
            Some(head_dim) => head_dim,
            None => self.hidden_size / self.num_attention_heads,
        }
    }

    /// Width of an attention head: its own setting, else an equal share of the hidden size.
    pub fn head_dim_resolved(&self) -> (width: usize)
        requires
            self.num_attention_heads > 0,
        ensures
            width == self.head_width(),
    {
        match self.head_dim {
            Some(head_dim) => head_dim,
            None => self.hidden_size / self.num_attention_heads,
        }
    }

    /// Whether a layer is recurrent: by its listed type, else unless its ordinal is a multiple of
    /// the full attention interval.
    pub open spec fn linear_layer(&self, layer_idx: int) -> bool {
        if layer_idx < self.layer_types@.len() {
            self.layer_types@[layer_idx]@ == "linear_attention"@
        } else {
            self.full_attention_interval == 0 || (layer_idx + 1) % (
            self.full_attention_interval as int) != 0
        }
    }

    /// Whether a layer is recurrent.
    pub fn is_linear_layer(&self, layer_idx: usize) -> (linear: bool)
        requires
            layer_idx < usize::MAX,
        ensures
            linear == self.linear_layer(layer_idx as int),
    {
        if layer_idx < self.layer_types.len() {
            same_text(self.layer_types[layer_idx].as_str(), "linear_attention")
        } else {
            self.full_attention_interval == 0 || (layer_idx + 1) % self.full_attention_interval != 0
        }
    }

    /// Configuration of the attention layers. The rotated widths follow from the rotary fraction,
    /// which the caller has applied.
    pub fn to_qwen4_attention_config(&self, rope_dims: i32, indexer_rope_dims: i32) -> (config:
        Qwen4AttentionConfig)
        requires
            self.num_attention_heads > 0,
        ensures
            config.num_attention_heads == self.num_attention_heads,
            config.num_key_value_heads == self.num_key_value_heads,
            config.head_dim == self.head_width(),
            config.rope_dims == rope_dims,
            config.indexer_rope_dims == indexer_rope_dims,
            forall|prefix: Seq<char>|
                #[trigger] quantization_of(config.quantization, prefix) == quantization_of(
                    self.quantization,
                    prefix,
                ),
            config.mrope_section@ == sections_of(self.rope_tree()),
            config.indexer_n_heads == 4,
            config.indexer_kv_heads == 1,
            config.indexer_head_dim == 128,
            config.indexer_budget == 2048,
            config.indexer_compress_ratio == 4,
    {
        let quantization: Option<Quantization> = match &self.quantization {
            Some(quantization) => Some(copy_quantization(quantization)),
            None => None,
        };
        Qwen4AttentionConfig {
            num_attention_heads: self.num_attention_heads,
            num_key_value_heads: self.num_key_value_heads,
            head_dim: self.head_dim_resolved(),
            rope_dims,
            quantization,
            mrope_section: self.mrope_section(),
            indexer_n_heads: 4,
            indexer_kv_heads: 1,
            indexer_head_dim: 128,
            indexer_budget: 2048,
            indexer_compress_ratio: 4,
            indexer_rope_dims,
        }
    }
}

/// Copies a quantisation.
fn copy_quantization(quantization: &Quantization) -> (copy: Quantization)
    ensures
        copy.group_size == quantization.group_size,
        copy.bits == quantization.bits,
        copy.mode@ == quantization.mode@,
        copy.overrides@ == quantization.overrides@,
        forall|prefix: Seq<char>|
            #[trigger] quantization_of(Some(copy), prefix) == quantization_of(
                Some(*quantization),
                prefix,
            ),
{
    let mut overrides: Vec<(String, TensorQuantization)> = Vec::new();
    let mut index: usize = 0;
    while index < quantization.overrides.len()
        invariant
            index <= quantization.overrides@.len(),
            overrides@ == quantization.overrides@.take(index as int),
        decreases quantization.overrides@.len() - index,
    {
        let name: String = quantization.overrides[index].0.clone();
        overrides.push((name, quantization.overrides[index].1));
        assert(overrides@.last() == quantization.overrides@[index as int]);
        index = index + 1;
    }
    assert(overrides@ == quantization.overrides@);
    Quantization {
        group_size: quantization.group_size,
        bits: quantization.bits,
        mode: quantization.mode.clone(),
        overrides,
    }
}

} // verus!
