//! What is loaded for every layer of the model, and which cache a layer uses.

use vstd::prelude::*;
use crate::qwen3_next::{quantization_of, KVCacheMode};
use crate::qwen4::config::Qwen4Config;
use crate::qwen4::state_names::LayerKind;
use crate::qwen4::weights::LoadError;
use crate::qwen4_attention::attention::Qwen4LayerCache;
use crate::text::{decimal, decimal_text};

verus! {

/// A linear projection to load: its tensors and their quantisation.
#[derive(Debug)]
pub struct LinearLoad {
    pub prefix: String,
    pub group_size: i32,
    pub bits: i32,
}

impl LinearLoad {
    /// Whether this is the projection under a prefix, quantised as the configuration says.
    pub open spec fn is(&self, config: &Qwen4Config, prefix: Seq<char>) -> bool {
        &&& self.prefix@ == prefix
        &&& (self.group_size, self.bits) == quantization_of(config.quantization, prefix)
    }
}

/// A name under a prefix.
pub open spec fn under(prefix: Seq<char>, suffix: Seq<char>) -> Seq<char> {
    prefix + "."@ + suffix
}

fn name_under(prefix: &str, suffix: &str) -> (name: String)
    ensures
        name@ == under(prefix@, suffix@),
{
    let mut name: String = prefix.to_owned();
    name.append(".");
    name.append(suffix);
    name
}

/// The projection under a prefix.
pub fn linear_load(config: &Qwen4Config, prefix: String) -> (load: LinearLoad)
    ensures
        load.is(config, prefix@),
{
    let (group_size, bits): (i32, i32) = config.quant_params(prefix.as_str());
    LinearLoad { prefix, group_size, bits }
}

/// The expert projections of a layer.
#[derive(Debug)]
pub enum ExpertLoad {
    /// Quantised projections.
    Quantized { gate_proj: LinearLoad, up_proj: LinearLoad, down_proj: LinearLoad },
    /// Plain tensors whose last two axes are swapped.
    Regular { gate_proj: String, up_proj: String, down_proj: String },
}

/// What is loaded for the experts of a layer.
#[derive(Debug)]
pub struct Qwen4SparseMoe {
    pub gate: LinearLoad,
    pub experts: ExpertLoad,
    pub shared_expert: String,
    pub shared_expert_gate: LinearLoad,
    pub num_experts: usize,
    pub top_k: usize,
}

impl Qwen4SparseMoe {
    /// Whether this is what is loaded under a prefix.
    pub open spec fn is(&self, config: &Qwen4Config, prefix: Seq<char>, quantized: bool) -> bool {
        let switch = under(prefix, "switch_mlp"@);
        &&& self.gate.is(config, under(prefix, "gate"@))
        &&& self.shared_expert@ == under(prefix, "shared_expert"@)
        &&& self.shared_expert_gate.is(config, under(prefix, "shared_expert_gate"@))
        &&& self.num_experts == config.num_experts
        &&& self.top_k == config.num_experts_per_tok
        &&& match self.experts {
            ExpertLoad::Quantized { gate_proj, up_proj, down_proj } => {
                &&& quantized
                &&& gate_proj.is(config, under(switch, "gate_proj"@))
                &&& up_proj.is(config, under(switch, "up_proj"@))
                &&& down_proj.is(config, under(switch, "down_proj"@))
            },
            ExpertLoad::Regular { gate_proj, up_proj, down_proj } => {
                &&& !quantized
                &&& gate_proj@ == under(under(switch, "gate_proj"@), "weight"@)
                &&& up_proj@ == under(under(switch, "up_proj"@), "weight"@)
                &&& down_proj@ == under(under(switch, "down_proj"@), "weight"@)
            },
        }
    }

    /// The tensor whose presence says that the experts are quantised.
    pub fn quantization_marker(prefix: &str) -> (name: String)
        ensures
            name@ == under(under(under(prefix@, "switch_mlp"@), "gate_proj"@), "scales"@),
    {
        let switch: String = name_under(prefix, "switch_mlp");
        let gate: String = name_under(switch.as_str(), "gate_proj");
        name_under(gate.as_str(), "scales")
    }

    /// What is loaded for the experts under a prefix.
    pub fn from_config(config: &Qwen4Config, prefix: &str, quantized: bool) -> (moe: Self)
        ensures
            moe.is(config, prefix@, quantized),
    {
        let switch: String = name_under(prefix, "switch_mlp");
        let gate: String = name_under(switch.as_str(), "gate_proj");
        let up: String = name_under(switch.as_str(), "up_proj");
        let down: String = name_under(switch.as_str(), "down_proj");
        let experts: ExpertLoad = if quantized {
            ExpertLoad::Quantized {
                gate_proj: linear_load(config, gate),
                up_proj: linear_load(config, up),
                down_proj: linear_load(config, down),
            }
        } else {
            ExpertLoad::Regular {
                gate_proj: name_under(gate.as_str(), "weight"),
                up_proj: name_under(up.as_str(), "weight"),
                down_proj: name_under(down.as_str(), "weight"),
            }
        };
        Qwen4SparseMoe {
            gate: linear_load(config, name_under(prefix, "gate")),
            experts,
            shared_expert: name_under(prefix, "shared_expert"),
            shared_expert_gate: linear_load(config, name_under(prefix, "shared_expert_gate")),
            num_experts: config.num_experts,
            top_k: config.num_experts_per_tok,
        }
    }

    /// Columns of a partitioned row of gates that hold the largest ones.
    pub fn chosen_columns(&self) -> (columns: (usize, usize))
        requires
            self.top_k <= self.num_experts,
        ensures
            columns.0 == self.num_experts - self.top_k,
            columns.1 == self.num_experts,
    {
        (self.num_experts - self.top_k, self.num_experts)
    }
}

/// What is loaded for a hyper-connection.
#[derive(Debug)]
pub struct Qwen4HyperConnection {
    pub norm: String,
    pub input_mix_weight_down: LinearLoad,
    pub input_mix_weight_up: LinearLoad,
    pub block_inject_weight: Option<LinearLoad>,
    pub hc_count: usize,
}

impl Qwen4HyperConnection {
    /// Whether this is what is loaded under a prefix.
    pub open spec fn is(&self, config: &Qwen4Config, prefix: Seq<char>, injecting: bool) -> bool {
        &&& self.norm@ == under(prefix, "hc_norm.weight"@)
        &&& self.input_mix_weight_down.is(config, under(prefix, "input_mix_weight_down"@))
        &&& self.input_mix_weight_up.is(config, under(prefix, "input_mix_weight_up"@))
        &&& self.hc_count == config.hc_count
        &&& match self.block_inject_weight {
            Some(load) => injecting && load.is(config, under(prefix, "block_inject_weight"@)),
            None => !injecting,
        }
    }

    /// What is loaded for a hyper-connection under a prefix. The final mixer does not inject.
    pub fn from_config(config: &Qwen4Config, prefix: &str, with_injection: bool) -> (connection:
        Self)
        ensures
            connection.is(config, prefix@, with_injection),
    {
        let block_inject_weight: Option<LinearLoad> = if with_injection {
            Some(linear_load(config, name_under(prefix, "block_inject_weight")))
        } else {
            None
        };
        Qwen4HyperConnection {
            norm: name_under(prefix, "hc_norm.weight"),
            input_mix_weight_down: linear_load(config, name_under(prefix, "input_mix_weight_down")),
            input_mix_weight_up: linear_load(config, name_under(prefix, "input_mix_weight_up")),
            block_inject_weight,
            hc_count: config.hc_count,
        }
    }
}

/// What is loaded for a decoder layer.
#[derive(Debug)]
pub struct Qwen4DecoderLayer {
    pub kind: LayerKind,
    /// Where the attention or the recurrence of the layer is.
    pub attention: String,
    pub ple: Option<String>,
    pub mlp: Qwen4SparseMoe,
    pub attn_hyper_connection: Qwen4HyperConnection,
    pub mlp_hyper_connection: Qwen4HyperConnection,
}

/// The prefix of a layer.
pub open spec fn layer_prefix(layer: nat) -> Seq<char> {
    "model.layers."@ + decimal(layer)
}

/// The kind of a layer: recurrent or not, and whether it embeds n-grams.
pub open spec fn layer_kind(config: &Qwen4Config, layer: int) -> LayerKind {
    LayerKind {
        is_linear: config.linear_layer(layer),
        has_ple: exists|i: int|
            0 <= i < config.ple_layer_ids@.len() && #[trigger] config.ple_layer_ids@[i] == layer
                + 1,
    }
}

impl Qwen4DecoderLayer {
    /// Whether this is what is loaded under a prefix.
    pub open spec fn is(
        &self,
        config: &Qwen4Config,
        prefix: Seq<char>,
        kind: LayerKind,
        experts_quantized: bool,
    ) -> bool {
        &&& self.kind == kind
        &&& self.attention@ == under(
            prefix,
            if kind.is_linear {
                "linear_attn"@
            } else {
                "self_attn"@
            },
        )
        &&& match self.ple {
            Some(ple) => kind.has_ple && ple@ == under(prefix, "ple"@),
            None => !kind.has_ple,
        }
        &&& self.mlp.is(config, under(prefix, "mlp"@), experts_quantized)
        &&& self.attn_hyper_connection.is(config, under(prefix, "attn_hyper_connection"@), true)
        &&& self.mlp_hyper_connection.is(config, under(prefix, "mlp_hyper_connection"@), true)
    }

    /// What is loaded for a layer under a prefix. N-gram embeddings need their table.
    pub fn from_config_at_prefix(
        config: &Qwen4Config,
        prefix: &str,
        kind: LayerKind,
        has_table: bool,
        experts_quantized: bool,
    ) -> (result: Result<Self, LoadError>)
        ensures
            match result {
                Ok(layer) => {
                    &&& kind.has_ple ==> has_table
                    &&& layer.is(config, prefix@, kind, experts_quantized)
                },
                Err(error) => error == LoadError::NoNgramTable && kind.has_ple && !has_table,
            },
    {
        if kind.has_ple && !has_table {
            return Err(LoadError::NoNgramTable);
        }
        let attention: String = if kind.is_linear {
            name_under(prefix, "linear_attn")
        } else {
            name_under(prefix, "self_attn")
        };
        let ple: Option<String> = if kind.has_ple {
            Some(name_under(prefix, "ple"))
        } else {
            None
        };
        let mlp: String = name_under(prefix, "mlp");
        let attn_connection: String = name_under(prefix, "attn_hyper_connection");
        let mlp_connection: String = name_under(prefix, "mlp_hyper_connection");
        Ok(
            Qwen4DecoderLayer {
                kind,
                attention,
                ple,
                mlp: Qwen4SparseMoe::from_config(config, mlp.as_str(), experts_quantized),
                attn_hyper_connection: Qwen4HyperConnection::from_config(
                    config,
                    attn_connection.as_str(),
                    true,
                ),
                mlp_hyper_connection: Qwen4HyperConnection::from_config(
                    config,
                    mlp_connection.as_str(),
                    true,
                ),
            },
        )
    }

    /// What is loaded for a layer of the model.
    pub fn from_config(
        config: &Qwen4Config,
        layer_idx: usize,
        has_table: bool,
        experts_quantized: bool,
    ) -> (result: Result<Self, LoadError>)
        requires
            layer_idx < usize::MAX,
        ensures
            match result {
                Ok(layer) => {
                    &&& layer_kind(config, layer_idx as int).has_ple ==> has_table
                    &&& layer.is(
                        config,
                        layer_prefix(layer_idx as nat),
                        layer_kind(config, layer_idx as int),
                        experts_quantized,
                    )
                },
                Err(error) => error == LoadError::NoNgramTable && layer_kind(
                    config,
                    layer_idx as int,
                ).has_ple && !has_table,
            },
    {
        let mut prefix: String = "model.layers.".to_owned();
        prefix.append(decimal_text(layer_idx).as_str());
        let kind: LayerKind = LayerKind {
            is_linear: config.is_linear_layer(layer_idx),
            has_ple: contains_id(&config.ple_layer_ids, layer_idx + 1),
        };
        Qwen4DecoderLayer::from_config_at_prefix(
            config,
            prefix.as_str(),
            kind,
            has_table,
            experts_quantized,
        )
    }
}

fn contains_id(ids: &Vec<usize>, id: usize) -> (found: bool)
    ensures
        found == exists|i: int| 0 <= i < ids@.len() && #[trigger] ids@[i] == id,
{
    let mut index: usize = 0;
    while index < ids.len()
        invariant
            index <= ids@.len(),
            forall|i: int| 0 <= i < index ==> #[trigger] ids@[i] != id,
        decreases ids@.len() - index,
    {
        if ids[index] == id {
            return true;
        }
        index = index + 1;
    }
    false
}

/// What is loaded for the model besides its layers.
#[derive(Debug)]
pub struct Qwen4ModelPlan {
    pub embed_tokens: LinearLoad,
    pub layers: Vec<LayerKind>,
    pub norm: Qwen4HyperConnection,
    /// The output head, unless it shares the embedding.
    pub lm_head: Option<LinearLoad>,
}

/// What is loaded for the model. Fresh caches follow the kinds of the layers.
pub fn plan_model(config: &Qwen4Config, mode: KVCacheMode, has_table: bool) -> (result: Result<
    Qwen4ModelPlan,
    LoadError,
>)
    requires
        config.num_hidden_layers < usize::MAX,
    ensures
        match result {
            Ok(plan) => {
                &&& mode == KVCacheMode::Fp8
                &&& plan.embed_tokens.is(config, "model.embed_tokens"@)
                &&& plan.layers@.len() == config.num_hidden_layers
                &&& forall|i: int|
                    0 <= i < plan.layers@.len() ==> {
                        &&& #[trigger] plan.layers@[i] == layer_kind(config, i)
                        &&& plan.layers@[i].has_ple ==> has_table
                    }
                &&& plan.norm.is(config, "model.hyper_connection_mixer"@, false)
                &&& match plan.lm_head {
                    Some(head) => !config.tie_word_embeddings && head.is(config, "lm_head"@),
                    None => config.tie_word_embeddings,
                }
            },
            Err(LoadError::CacheMode) => mode != KVCacheMode::Fp8,
            Err(LoadError::NoNgramTable) => mode == KVCacheMode::Fp8 && !has_table && exists|i: int|
                0 <= i < config.num_hidden_layers && (#[trigger] layer_kind(config, i)).has_ple,
            Err(_) => false,
        },
{
    if mode != KVCacheMode::Fp8 {
        return Err(LoadError::CacheMode);
    }
    let mut layers: Vec<LayerKind> = Vec::new();
    let mut layer: usize = 0;
    while layer < config.num_hidden_layers
        invariant
            layer <= config.num_hidden_layers < usize::MAX,
            mode == KVCacheMode::Fp8,
            layers@.len() == layer,
            forall|i: int|
                0 <= i < layers@.len() ==> {
                    &&& #[trigger] layers@[i] == layer_kind(config, i)
                    &&& layers@[i].has_ple ==> has_table
                },
        decreases config.num_hidden_layers - layer,
    {
        let kind: LayerKind = LayerKind {
            is_linear: config.is_linear_layer(layer),
            has_ple: contains_id(&config.ple_layer_ids, layer + 1),
        };
        assert(kind == layer_kind(config, layer as int));
        if kind.has_ple && !has_table {
            return Err(LoadError::NoNgramTable);
        }
        layers.push(kind);
        layer = layer + 1;
    }
    let lm_head: Option<LinearLoad> = if config.tie_word_embeddings {
        None
    } else {
        Some(linear_load(config, "lm_head".to_owned()))
    };
    Ok(
        Qwen4ModelPlan {
            embed_tokens: linear_load(config, "model.embed_tokens".to_owned()),
            layers,
            norm: Qwen4HyperConnection::from_config(config, "model.hyper_connection_mixer", false),
            lm_head,
        },
    )
}

/// Fresh caches for layers of these kinds.
pub fn make_internal_caches(kinds: &Vec<LayerKind>) -> (caches: Vec<Qwen4LayerCache>)
    ensures
        caches@.len() == kinds@.len(),
        forall|i: int|
            0 <= i < caches@.len() ==> #[trigger] caches@[i] == if kinds@[i].is_linear {
                Qwen4LayerCache::Linear { offset: 0 }
            } else {
                Qwen4LayerCache::Attention { offset: 0 }
            },
{
    let mut caches: Vec<Qwen4LayerCache> = Vec::new();
    let mut index: usize = 0;
    while index < kinds.len()
        invariant
            index <= kinds@.len(),
            caches@.len() == index,
            forall|i: int|
                0 <= i < caches@.len() ==> #[trigger] caches@[i] == if kinds@[i].is_linear {
                    Qwen4LayerCache::Linear { offset: 0 }
                } else {
                    Qwen4LayerCache::Attention { offset: 0 }
                },
        decreases kinds@.len() - index,
    {
        if kinds[index].is_linear {
            caches.push(Qwen4LayerCache::Linear { offset: 0 });
        } else {
            caches.push(Qwen4LayerCache::Attention { offset: 0 });
        }
        index = index + 1;
    }
    caches
}

/// The cache that a layer's attention works on.
#[derive(Debug, Clone, Copy, PartialEq, Eq, Structural)]
pub enum CacheUse {
    /// The layer's own cache.
    Own,
    /// A key and value cache that is dropped afterwards.
    Temporary,
    /// None: the recurrence starts afresh.
    Without,
}

/// What a forward pass of a layer works on.
#[derive(Debug, Clone, Copy, PartialEq, Eq, Structural)]
pub struct LayerPass {
    /// Whether n-gram embeddings are added. They live in the recurrent cache.
    pub embeds_ngrams: bool,
    pub cache: CacheUse,
}

/// What a forward pass of a layer works on, given its cache. When the pass is captured for a
/// rollback, the inputs of the n-gram embedding are captured exactly if it is added.
pub fn layer_pass(kind: LayerKind, cache: &Qwen4LayerCache) -> (pass: LayerPass)
    ensures
        pass.embeds_ngrams == (kind.has_ple && cache is Linear),
        pass.cache == if kind.is_linear == (cache is Linear) {
            CacheUse::Own
        } else if kind.is_linear {
            CacheUse::Without
        } else {
            CacheUse::Temporary
        },
{
    let linear: bool = match cache {
        Qwen4LayerCache::Linear { .. } => true,
        Qwen4LayerCache::Attention { .. } => false,
    };
    LayerPass {
        embeds_ngrams: kind.has_ple && linear,
        cache: if kind.is_linear == linear {
            CacheUse::Own
        } else if kind.is_linear {
            CacheUse::Without
        } else {
            CacheUse::Temporary
        },
    }
}

} // verus!
