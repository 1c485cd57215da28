//! Which tensor of the pinned checkpoint pair stands where, and which tensors the specialised
//! kernels may take.

use vstd::prelude::*;
use crate::text::{decimal, decimal_reads_back, decimal_text};

verus! {

/// Tensors of the target checkpoint.
pub const TARGET_PLAN_SLOTS: usize = 866;

/// Tensors of the drafter checkpoint.
pub const MTP_PLAN_SLOTS: usize = 18;

/// Layers of the target model.
pub const TARGET_LAYERS: usize = 64;

/// The model that a layer belongs to.
#[derive(Debug, Clone, Copy, PartialEq, Eq, Structural)]
pub enum ModelRole {
    Target,
    Mtp,
}

/// A tensor of one layer.
#[derive(Debug, Clone, Copy, PartialEq, Eq, Structural)]
pub enum LayerTensor {
    InputNorm,
    PostAttentionNorm,
    AttentionQuery,
    AttentionKey,
    AttentionValue,
    AttentionOutput,
    AttentionQueryNorm,
    AttentionKeyNorm,
    MlpGate,
    MlpUp,
    MlpDown,
    LinearQkv,
    LinearGate,
    LinearBeta,
    LinearAlpha,
    LinearConv,
    LinearDtBias,
    LinearA,
    LinearNorm,
    LinearOutput,
}

/// A tensor of the model, by its role.
#[derive(Debug, Clone, Copy, PartialEq, Eq, Structural)]
pub enum TensorSlot {
    TokenEmbedding,
    Output,
    OutputNorm,
    Layer { role: ModelRole, layer: usize, tensor: LayerTensor },
    MtpEmbeddingNorm,
    MtpHiddenNorm,
    MtpProjection,
    MtpHeadNorm,
}

/// A tensor of the pinned checkpoint pair, by its index in its file.
#[derive(Debug, Clone, Copy, PartialEq, Eq, Structural)]
pub enum PinnedSlot {
    Target(usize),
    Mtp(usize),
}

/// Why a tensor has no place in the pinned pair.
#[derive(Debug, Clone, Copy, PartialEq, Eq, Structural)]
pub enum SlotError {
    OutsideTopology { slot: TensorSlot },
    NotFullAttention { tensor: LayerTensor },
    NotLinearAttention { tensor: LayerTensor },
}

/// The name of a layer tensor below the layer.
pub open spec fn layer_suffix(tensor: LayerTensor) -> Seq<char> {
    match tensor {
        LayerTensor::InputNorm => "input_layernorm.weight"@,
        LayerTensor::PostAttentionNorm => "post_attention_layernorm.weight"@,
        LayerTensor::AttentionQuery => "self_attn.q_proj.weight"@,
        LayerTensor::AttentionKey => "self_attn.k_proj.weight"@,
        LayerTensor::AttentionValue => "self_attn.v_proj.weight"@,
        LayerTensor::AttentionOutput => "self_attn.o_proj.weight"@,
        LayerTensor::AttentionQueryNorm => "self_attn.q_norm.weight"@,
        LayerTensor::AttentionKeyNorm => "self_attn.k_norm.weight"@,
        LayerTensor::MlpGate => "mlp.gate_proj.weight"@,
        LayerTensor::MlpUp => "mlp.up_proj.weight"@,
        LayerTensor::MlpDown => "mlp.down_proj.weight"@,
        LayerTensor::LinearQkv => "linear_attn.in_proj_qkv.weight"@,
        LayerTensor::LinearGate => "linear_attn.in_proj_z.weight"@,
        LayerTensor::LinearBeta => "linear_attn.in_proj_b.weight"@,
        LayerTensor::LinearAlpha => "linear_attn.in_proj_a.weight"@,
        LayerTensor::LinearConv => "linear_attn.conv1d.weight"@,
        LayerTensor::LinearDtBias => "linear_attn.dt_bias"@,
        LayerTensor::LinearA => "linear_attn.A_log"@,
        LayerTensor::LinearNorm => "linear_attn.norm.weight"@,
        LayerTensor::LinearOutput => "linear_attn.out_proj.weight"@,
    }
}

/// What the names of a model's layers start with.
pub open spec fn role_prefix(role: ModelRole) -> Seq<char> {
    match role {
        ModelRole::Target => "model.layers."@,
        ModelRole::Mtp => "mtp.layers."@,
    }
}

/// The checkpoint name of a tensor.
pub open spec fn tensor_name(slot: TensorSlot) -> Seq<char> {
    match slot {
        TensorSlot::TokenEmbedding => "model.embed_tokens.weight"@,
        TensorSlot::Output => "lm_head.weight"@,
        TensorSlot::OutputNorm => "model.norm.weight"@,
        TensorSlot::MtpEmbeddingNorm => "mtp.pre_fc_norm_embedding.weight"@,
        TensorSlot::MtpHiddenNorm => "mtp.pre_fc_norm_hidden.weight"@,
        TensorSlot::MtpProjection => "mtp.fc.weight"@,
        TensorSlot::MtpHeadNorm => "mtp.norm.weight"@,
        TensorSlot::Layer { role, layer, tensor } => role_prefix(role) + decimal(layer as nat)
            + "."@ + layer_suffix(tensor),
    }
}

/// Different tensors of a layer have different names below it.
proof fn suffixes_are_distinct(left: LayerTensor, right: LayerTensor)
    requires
        layer_suffix(left) == layer_suffix(right),
    ensures
        left == right,
{
    reveal_strlit("input_layernorm.weight");
    reveal_strlit("post_attention_layernorm.weight");
    reveal_strlit("self_attn.q_proj.weight");
    reveal_strlit("self_attn.k_proj.weight");
    reveal_strlit("self_attn.v_proj.weight");
    reveal_strlit("self_attn.o_proj.weight");
    reveal_strlit("self_attn.q_norm.weight");
    reveal_strlit("self_attn.k_norm.weight");
    reveal_strlit("mlp.gate_proj.weight");
    reveal_strlit("mlp.up_proj.weight");
    reveal_strlit("mlp.down_proj.weight");
    reveal_strlit("linear_attn.in_proj_qkv.weight");
    reveal_strlit("linear_attn.in_proj_z.weight");
    reveal_strlit("linear_attn.in_proj_b.weight");
    reveal_strlit("linear_attn.in_proj_a.weight");
    reveal_strlit("linear_attn.conv1d.weight");
    reveal_strlit("linear_attn.dt_bias");
    reveal_strlit("linear_attn.A_log");
    reveal_strlit("linear_attn.norm.weight");
    reveal_strlit("linear_attn.out_proj.weight");
    assert("input_layernorm.weight"@.len() == 22);
    assert("post_attention_layernorm.weight"@.len() == 31);
    assert("self_attn.q_proj.weight"@.len() == 23);
    assert("self_attn.k_proj.weight"@.len() == 23);
    assert("self_attn.v_proj.weight"@.len() == 23);
    assert("self_attn.o_proj.weight"@.len() == 23);
    assert("self_attn.q_norm.weight"@.len() == 23);
    assert("self_attn.k_norm.weight"@.len() == 23);
    assert("mlp.gate_proj.weight"@.len() == 20);
    assert("mlp.up_proj.weight"@.len() == 18);
    assert("mlp.down_proj.weight"@.len() == 20);
    assert("linear_attn.in_proj_qkv.weight"@.len() == 30);
    assert("linear_attn.in_proj_z.weight"@.len() == 28);
    assert("linear_attn.in_proj_b.weight"@.len() == 28);
    assert("linear_attn.in_proj_a.weight"@.len() == 28);
    assert("linear_attn.conv1d.weight"@.len() == 25);
    assert("linear_attn.dt_bias"@.len() == 19);
    assert("linear_attn.A_log"@.len() == 17);
    assert("linear_attn.norm.weight"@.len() == 23);
    assert("linear_attn.out_proj.weight"@.len() == 27);
    assert("mlp.down_proj.weight"@[4] == 'd');
    assert("mlp.gate_proj.weight"@[4] == 'g');
    assert("linear_attn.norm.weight"@[0] == 'l');
    assert("self_attn.k_norm.weight"@[0] == 's');
    assert("self_attn.k_proj.weight"@[0] == 's');
    assert("self_attn.o_proj.weight"@[0] == 's');
    assert("self_attn.q_norm.weight"@[0] == 's');
    assert("self_attn.q_proj.weight"@[0] == 's');
    assert("self_attn.v_proj.weight"@[0] == 's');
    assert("self_attn.k_norm.weight"@[10] == 'k');
    assert("self_attn.k_proj.weight"@[10] == 'k');
    assert("self_attn.o_proj.weight"@[10] == 'o');
    assert("self_attn.q_norm.weight"@[10] == 'q');
    assert("self_attn.q_proj.weight"@[10] == 'q');
    assert("self_attn.v_proj.weight"@[10] == 'v');
    assert("self_attn.k_norm.weight"@[12] == 'n');
    assert("self_attn.k_proj.weight"@[12] == 'p');
    assert("self_attn.q_norm.weight"@[12] == 'n');
    assert("self_attn.q_proj.weight"@[12] == 'p');
    assert("linear_attn.in_proj_a.weight"@[20] == 'a');
    assert("linear_attn.in_proj_b.weight"@[20] == 'b');
    assert("linear_attn.in_proj_z.weight"@[20] == 'z');
}

/// Prefix, number and suffix of a layer tensor can be read off its name.
proof fn layer_name_parts(
    role: ModelRole,
    i: nat,
    left: LayerTensor,
    other: ModelRole,
    j: nat,
    right: LayerTensor,
)
    requires
        role_prefix(role) + decimal(i) + "."@ + layer_suffix(left) == role_prefix(other) + decimal(j)
            + "."@ + layer_suffix(right),
    ensures
        role == other,
        i == j,
        left == right,
{
    reveal_strlit("model.layers.");
    reveal_strlit("mtp.layers.");
    reveal_strlit(".");
    let name = role_prefix(role) + decimal(i) + "."@ + layer_suffix(left);
    assert(name[1] == role_prefix(role)[1]);
    assert(name[1] == role_prefix(other)[1]);
    assert("model.layers."@[1] == 'o');
    assert("mtp.layers."@[1] == 't');
    let at = role_prefix(role).len() as int;
    let a = decimal(i);
    let b = decimal(j);
    decimal_reads_back(i);
    decimal_reads_back(j);
    assert(name[at + a.len()] == '.');
    assert(name[at + b.len()] == '.');
    if a.len() < b.len() {
        assert(name[at + a.len()] == b[a.len() as int]);
    }
    if b.len() < a.len() {
        assert(name[at + b.len()] == a[b.len() as int]);
    }
    assert(a == name.subrange(at, at + a.len()));
    assert(b == name.subrange(at, at + b.len()));
    assert(layer_suffix(left) == name.skip(at + 1 + a.len()));
    assert(layer_suffix(right) == name.skip(at + 1 + b.len()));
    suffixes_are_distinct(left, right);
}

/// No tensor of the whole model has the name of a layer tensor.
proof fn layer_names_stand_apart(slot: TensorSlot, role: ModelRole, layer: usize, tensor: LayerTensor)
    requires
        !(slot is Layer),
    ensures
        tensor_name(slot) != tensor_name(TensorSlot::Layer { role, layer, tensor }),
{
    reveal_strlit("model.embed_tokens.weight");
    reveal_strlit("lm_head.weight");
    reveal_strlit("model.norm.weight");
    reveal_strlit("mtp.pre_fc_norm_embedding.weight");
    reveal_strlit("mtp.pre_fc_norm_hidden.weight");
    reveal_strlit("mtp.fc.weight");
    reveal_strlit("mtp.norm.weight");
    reveal_strlit("model.layers.");
    reveal_strlit("mtp.layers.");
    reveal_strlit(".");
    let name = tensor_name(TensorSlot::Layer { role, layer, tensor });
    assert(name[1] == role_prefix(role)[1]);
    assert(name[4] == role_prefix(role)[4]);
    assert(name[6] == role_prefix(role)[6]);
    assert("model.layers."@[1] == 'o');
    assert("model.layers."@[6] == 'l');
    assert("mtp.layers."@[1] == 't');
    assert("mtp.layers."@[4] == 'l');
    assert("model.embed_tokens.weight"@[1] == 'o');
    assert("model.embed_tokens.weight"@[6] == 'e');
    assert("lm_head.weight"@[1] == 'm');
    assert("model.norm.weight"@[1] == 'o');
    assert("model.norm.weight"@[6] == 'n');
    assert("mtp.pre_fc_norm_embedding.weight"@[1] == 't');
    assert("mtp.pre_fc_norm_embedding.weight"@[4] == 'p');
    assert("mtp.pre_fc_norm_hidden.weight"@[1] == 't');
    assert("mtp.pre_fc_norm_hidden.weight"@[4] == 'p');
    assert("mtp.fc.weight"@[1] == 't');
    assert("mtp.fc.weight"@[4] == 'f');
    assert("mtp.norm.weight"@[1] == 't');
    assert("mtp.norm.weight"@[4] == 'n');
}

/// Different tensors have different checkpoint names.
pub proof fn tensor_names_are_distinct(left: TensorSlot, right: TensorSlot)
    requires
        left != right,
    ensures
        tensor_name(left) != tensor_name(right),
{
    if let TensorSlot::Layer { role, layer, tensor } = left {
        if let TensorSlot::Layer { role: other_role, layer: other_layer, tensor: other_tensor }
            = right {
            if tensor_name(left) == tensor_name(right) {
                layer_name_parts(
                    role,
                    layer as nat,
                    tensor,
                    other_role,
                    other_layer as nat,
                    other_tensor,
                );
            }
        } else {
            layer_names_stand_apart(right, role, layer, tensor);
        }
    } else if let TensorSlot::Layer { role, layer, tensor } = right {
        layer_names_stand_apart(left, role, layer, tensor);
    } else {
        reveal_strlit("model.embed_tokens.weight");
        reveal_strlit("lm_head.weight");
        reveal_strlit("model.norm.weight");
        reveal_strlit("mtp.pre_fc_norm_embedding.weight");
        reveal_strlit("mtp.pre_fc_norm_hidden.weight");
        reveal_strlit("mtp.fc.weight");
        reveal_strlit("mtp.norm.weight");
        assert("model.embed_tokens.weight"@.len() == 25);
        assert("lm_head.weight"@.len() == 14);
        assert("model.norm.weight"@.len() == 17);
        assert("mtp.pre_fc_norm_embedding.weight"@.len() == 32);
        assert("mtp.pre_fc_norm_hidden.weight"@.len() == 29);
        assert("mtp.fc.weight"@.len() == 13);
        assert("mtp.norm.weight"@.len() == 15);
    }
}

/// Whether a text ends in another.
pub open spec fn ends_in(text: Seq<char>, end: Seq<char>) -> bool {
    end.len() <= text.len() && text.skip(text.len() - end.len()) == end
}

/// Every checkpoint name ends in the word for weights, but for the step bias and the decay of a
/// recurrent layer.
pub proof fn names_end_in_weight(slot: TensorSlot)
    ensures
        ends_in(tensor_name(slot), ".weight"@) == !(slot matches TensorSlot::Layer { tensor, .. }
            && (tensor == LayerTensor::LinearDtBias || tensor == LayerTensor::LinearA)),
{
    reveal_strlit(".weight");
    reveal_strlit("model.embed_tokens.weight");
    reveal_strlit("lm_head.weight");
    reveal_strlit("model.norm.weight");
    reveal_strlit("mtp.pre_fc_norm_embedding.weight");
    reveal_strlit("mtp.pre_fc_norm_hidden.weight");
    reveal_strlit("mtp.fc.weight");
    reveal_strlit("mtp.norm.weight");
    reveal_strlit("input_layernorm.weight");
    reveal_strlit("post_attention_layernorm.weight");
    reveal_strlit("self_attn.q_proj.weight");
    reveal_strlit("self_attn.k_proj.weight");
    reveal_strlit("self_attn.v_proj.weight");
    reveal_strlit("self_attn.o_proj.weight");
    reveal_strlit("self_attn.q_norm.weight");
    reveal_strlit("self_attn.k_norm.weight");
    reveal_strlit("mlp.gate_proj.weight");
    reveal_strlit("mlp.up_proj.weight");
    reveal_strlit("mlp.down_proj.weight");
    reveal_strlit("linear_attn.in_proj_qkv.weight");
    reveal_strlit("linear_attn.in_proj_z.weight");
    reveal_strlit("linear_attn.in_proj_b.weight");
    reveal_strlit("linear_attn.in_proj_a.weight");
    reveal_strlit("linear_attn.conv1d.weight");
    reveal_strlit("linear_attn.dt_bias");
    reveal_strlit("linear_attn.A_log");
    reveal_strlit("linear_attn.norm.weight");
    reveal_strlit("linear_attn.out_proj.weight");
    assert("model.embed_tokens.weight"@.skip(18) == ".weight"@);
    assert("lm_head.weight"@.skip(7) == ".weight"@);
    assert("model.norm.weight"@.skip(10) == ".weight"@);
    assert("mtp.pre_fc_norm_embedding.weight"@.skip(25) == ".weight"@);
    assert("mtp.pre_fc_norm_hidden.weight"@.skip(22) == ".weight"@);
    assert("mtp.fc.weight"@.skip(6) == ".weight"@);
    assert("mtp.norm.weight"@.skip(8) == ".weight"@);
    assert("input_layernorm.weight"@.skip(15) == ".weight"@);
    assert("post_attention_layernorm.weight"@.skip(24) == ".weight"@);
    assert("self_attn.q_proj.weight"@.skip(16) == ".weight"@);
    assert("self_attn.k_proj.weight"@.skip(16) == ".weight"@);
    assert("self_attn.v_proj.weight"@.skip(16) == ".weight"@);
    assert("self_attn.o_proj.weight"@.skip(16) == ".weight"@);
    assert("self_attn.q_norm.weight"@.skip(16) == ".weight"@);
    assert("self_attn.k_norm.weight"@.skip(16) == ".weight"@);
    assert("mlp.gate_proj.weight"@.skip(13) == ".weight"@);
    assert("mlp.up_proj.weight"@.skip(11) == ".weight"@);
    assert("mlp.down_proj.weight"@.skip(13) == ".weight"@);
    assert("linear_attn.in_proj_qkv.weight"@.skip(23) == ".weight"@);
    assert("linear_attn.in_proj_z.weight"@.skip(21) == ".weight"@);
    assert("linear_attn.in_proj_b.weight"@.skip(21) == ".weight"@);
    assert("linear_attn.in_proj_a.weight"@.skip(21) == ".weight"@);
    assert("linear_attn.conv1d.weight"@.skip(18) == ".weight"@);
    assert("linear_attn.dt_bias"@.last() == 's');
    assert("linear_attn.A_log"@.last() == 'g');
    assert("linear_attn.norm.weight"@.skip(16) == ".weight"@);
    assert("linear_attn.out_proj.weight"@.skip(20) == ".weight"@);
    if let TensorSlot::Layer { role, layer, tensor } = slot {
        let front = role_prefix(role) + decimal(layer as nat) + "."@;
        let suffix = layer_suffix(tensor);
        let name = tensor_name(slot);
        assert(name == front + suffix);
        assert(suffix.len() >= 7);
        assert(name.skip(name.len() - 7) == suffix.skip(suffix.len() - 7));
        assert(".weight"@.last() == 't');
        assert(name.skip(name.len() - 7).last() == suffix.last());
    }
}

fn layer_suffix_text(tensor: LayerTensor) -> (suffix: &'static str)
    ensures
        suffix@ == layer_suffix(tensor),
{
    match tensor {
        LayerTensor::InputNorm => "input_layernorm.weight",
        LayerTensor::PostAttentionNorm => "post_attention_layernorm.weight",
        LayerTensor::AttentionQuery => "self_attn.q_proj.weight",
        LayerTensor::AttentionKey => "self_attn.k_proj.weight",
        LayerTensor::AttentionValue => "self_attn.v_proj.weight",
        LayerTensor::AttentionOutput => "self_attn.o_proj.weight",
        LayerTensor::AttentionQueryNorm => "self_attn.q_norm.weight",
        LayerTensor::AttentionKeyNorm => "self_attn.k_norm.weight",
        LayerTensor::MlpGate => "mlp.gate_proj.weight",
        LayerTensor::MlpUp => "mlp.up_proj.weight",
        LayerTensor::MlpDown => "mlp.down_proj.weight",
        LayerTensor::LinearQkv => "linear_attn.in_proj_qkv.weight",
        LayerTensor::LinearGate => "linear_attn.in_proj_z.weight",
        LayerTensor::LinearBeta => "linear_attn.in_proj_b.weight",
        LayerTensor::LinearAlpha => "linear_attn.in_proj_a.weight",
        LayerTensor::LinearConv => "linear_attn.conv1d.weight",
        LayerTensor::LinearDtBias => "linear_attn.dt_bias",
        LayerTensor::LinearA => "linear_attn.A_log",
        LayerTensor::LinearNorm => "linear_attn.norm.weight",
        LayerTensor::LinearOutput => "linear_attn.out_proj.weight",
    }
}

impl TensorSlot {
    /// The checkpoint name of the tensor.
    pub fn canonical_name(self) -> (name: String)
        ensures
            name@ == tensor_name(self),
    {
        match self {
            TensorSlot::TokenEmbedding => "model.embed_tokens.weight".to_owned(),
            TensorSlot::Output => "lm_head.weight".to_owned(),
            TensorSlot::OutputNorm => "model.norm.weight".to_owned(),
            TensorSlot::MtpEmbeddingNorm => "mtp.pre_fc_norm_embedding.weight".to_owned(),
            TensorSlot::MtpHiddenNorm => "mtp.pre_fc_norm_hidden.weight".to_owned(),
            TensorSlot::MtpProjection => "mtp.fc.weight".to_owned(),
            TensorSlot::MtpHeadNorm => "mtp.norm.weight".to_owned(),
            TensorSlot::Layer { role, layer, tensor } => {
                let mut name: String = match role {
                    ModelRole::Target => "model.layers.".to_owned(),
                    ModelRole::Mtp => "mtp.layers.".to_owned(),
                };
                let number = decimal_text(layer);
                name.append(number.as_str());
                name.append(".");
                name.append(layer_suffix_text(tensor));
                name
            },
        }
    }
}

/// Whether a target layer uses full attention: every fourth one does.
pub open spec fn full_attention_layer(layer: nat) -> bool {
    (layer + 1) % 4 == 0
}

/// Tensors in a layer's stretch of the file.
pub open spec fn layer_width(full: bool) -> nat {
    if full {
        11
    } else {
        14
    }
}

/// Index of the first tensor of a target layer: three tensors of the whole model come first, then
/// the layers one after another.
pub open spec fn layer_base(layer: nat) -> nat
    decreases layer,
{
    if layer == 0 {
        3
    } else {
        layer_base((layer - 1) as nat) + layer_width(full_attention_layer((layer - 1) as nat))
    }
}

/// Layers stand back to back, so the base of a layer has a closed form.
pub proof fn layer_base_closed_form(layer: nat)
    ensures
        layer_base(layer) == 3 + layer * 14 - (layer / 4) * 3,
    decreases layer,
{
    if layer > 0 {
        layer_base_closed_form((layer - 1) as nat);
    }
}

/// Place of a tensor within its layer, in file order.
pub open spec fn slot_offset(full: bool, tensor: LayerTensor) -> Option<usize> {
    if full {
        match tensor {
            LayerTensor::AttentionKey => Some(0),
            LayerTensor::AttentionKeyNorm => Some(1),
            LayerTensor::InputNorm => Some(2),
            LayerTensor::AttentionOutput => Some(3),
            LayerTensor::AttentionQuery => Some(4),
            LayerTensor::AttentionQueryNorm => Some(5),
            LayerTensor::AttentionValue => Some(6),
            LayerTensor::MlpDown => Some(7),
            LayerTensor::MlpGate => Some(8),
            LayerTensor::MlpUp => Some(9),
            LayerTensor::PostAttentionNorm => Some(10),
            _ => None,
        }
    } else {
        match tensor {
            LayerTensor::LinearGate => Some(0),
            LayerTensor::InputNorm => Some(1),
            LayerTensor::LinearQkv => Some(2),
            LayerTensor::MlpDown => Some(3),
            LayerTensor::MlpGate => Some(4),
            LayerTensor::MlpUp => Some(5),
            LayerTensor::PostAttentionNorm => Some(6),
            LayerTensor::LinearA => Some(7),
            LayerTensor::LinearAlpha => Some(8),
            LayerTensor::LinearBeta => Some(9),
            LayerTensor::LinearConv => Some(10),
            LayerTensor::LinearDtBias => Some(11),
            LayerTensor::LinearNorm => Some(12),
            LayerTensor::LinearOutput => Some(13),
            _ => None,
        }
    }
}

/// Place of a tensor within a layer of the given kind.
pub fn layer_slot_offset(full: bool, tensor: LayerTensor) -> (result: Result<usize, SlotError>)
    ensures
        match result {
            Ok(offset) => slot_offset(full, tensor) == Some(offset) && offset < layer_width(full),
            Err(error) => slot_offset(full, tensor) is None && error == (if full {
                SlotError::NotFullAttention { tensor }
            } else {
                SlotError::NotLinearAttention { tensor }
            }),
        },
{
    if full {
        match tensor {
            LayerTensor::AttentionKey => Ok(0),
            LayerTensor::AttentionKeyNorm => Ok(1),
            LayerTensor::InputNorm => Ok(2),
            LayerTensor::AttentionOutput => Ok(3),
            LayerTensor::AttentionQuery => Ok(4),
            LayerTensor::AttentionQueryNorm => Ok(5),
            LayerTensor::AttentionValue => Ok(6),
            LayerTensor::MlpDown => Ok(7),
            LayerTensor::MlpGate => Ok(8),
            LayerTensor::MlpUp => Ok(9),
            LayerTensor::PostAttentionNorm => Ok(10),
            _ => Err(SlotError::NotFullAttention { tensor }),
        }
    } else {
        match tensor {
            LayerTensor::LinearGate => Ok(0),
            LayerTensor::InputNorm => Ok(1),
            LayerTensor::LinearQkv => Ok(2),
            LayerTensor::MlpDown => Ok(3),
            LayerTensor::MlpGate => Ok(4),
            LayerTensor::MlpUp => Ok(5),
            LayerTensor::PostAttentionNorm => Ok(6),
            LayerTensor::LinearA => Ok(7),
            LayerTensor::LinearAlpha => Ok(8),
            LayerTensor::LinearBeta => Ok(9),
            LayerTensor::LinearConv => Ok(10),
            LayerTensor::LinearDtBias => Ok(11),
            LayerTensor::LinearNorm => Ok(12),
            LayerTensor::LinearOutput => Ok(13),
            _ => Err(SlotError::NotLinearAttention { tensor }),
        }
    }
}

/// Where a tensor stands in the pinned pair. The drafter's only layer is a full-attention layer
/// that starts at its fourth tensor and keeps its second norm at the very end of the file.
pub open spec fn slot_of(slot: TensorSlot) -> Result<PinnedSlot, SlotError> {
    match slot {
        TensorSlot::Output => Ok(PinnedSlot::Target(0)),
        TensorSlot::OutputNorm => Ok(PinnedSlot::Target(1)),
        TensorSlot::TokenEmbedding => Ok(PinnedSlot::Target(2)),
        TensorSlot::MtpProjection => Ok(PinnedSlot::Mtp(13)),
        TensorSlot::MtpEmbeddingNorm => Ok(PinnedSlot::Mtp(14)),
        TensorSlot::MtpHiddenNorm => Ok(PinnedSlot::Mtp(15)),
        TensorSlot::MtpHeadNorm => Ok(PinnedSlot::Mtp(16)),
        TensorSlot::Layer { role: ModelRole::Target, layer, tensor } => if layer >= TARGET_LAYERS {
            Err(SlotError::OutsideTopology { slot })
        } else {
            let full = full_attention_layer(layer as nat);
            match slot_offset(full, tensor) {
                Some(offset) => Ok(
                    PinnedSlot::Target((layer_base(layer as nat) + offset) as usize),
                ),
                None => Err(
                    if full {
                        SlotError::NotFullAttention { tensor }
                    } else {
                        SlotError::NotLinearAttention { tensor }
                    },
                ),
            }
        },
        TensorSlot::Layer { role: ModelRole::Mtp, layer, tensor } => if layer != 0 {
            Err(SlotError::OutsideTopology { slot })
        } else if tensor == LayerTensor::PostAttentionNorm {
            Ok(PinnedSlot::Mtp(17))
        } else {
            match slot_offset(true, tensor) {
                Some(offset) => Ok(PinnedSlot::Mtp((3 + offset) as usize)),
                None => Err(SlotError::NotFullAttention { tensor }),
            }
        },
    }
}

/// Where a tensor stands in the pinned pair.
pub fn pinned_slot(slot: TensorSlot) -> (result: Result<PinnedSlot, SlotError>)
    ensures
        result == slot_of(slot),
{
    match slot {
        TensorSlot::TokenEmbedding => Ok(PinnedSlot::Target(2)),
        TensorSlot::Output => Ok(PinnedSlot::Target(0)),
        TensorSlot::OutputNorm => Ok(PinnedSlot::Target(1)),
        TensorSlot::MtpEmbeddingNorm => Ok(PinnedSlot::Mtp(14)),
        TensorSlot::MtpHiddenNorm => Ok(PinnedSlot::Mtp(15)),
        TensorSlot::MtpProjection => Ok(PinnedSlot::Mtp(13)),
        TensorSlot::MtpHeadNorm => Ok(PinnedSlot::Mtp(16)),
        TensorSlot::Layer { role: ModelRole::Target, layer, tensor } => {
            if layer >= TARGET_LAYERS {
                return Err(SlotError::OutsideTopology { slot });
            }
            let base: usize = 3 + layer * 14 - (layer / 4) * 3;
            proof {
                layer_base_closed_form(layer as nat);
            }
            match layer_slot_offset((layer + 1) % 4 == 0, tensor) {
                Ok(offset) => Ok(PinnedSlot::Target(base + offset)),
                Err(error) => Err(error),
            }
        },
        TensorSlot::Layer { role: ModelRole::Mtp, layer, tensor } => {
            if layer != 0 {
                return Err(SlotError::OutsideTopology { slot });
            }
            if tensor == LayerTensor::PostAttentionNorm {
                return Ok(PinnedSlot::Mtp(17));
            }
            match layer_slot_offset(true, tensor) {
                Ok(offset) => Ok(PinnedSlot::Mtp(3 + offset)),
                Err(error) => Err(error),
            }
        },
    }
}

/// Whether a pinned slot is one of its file.
pub open spec fn slot_in_range(slot: PinnedSlot) -> bool {
    match slot {
        PinnedSlot::Target(index) => index < TARGET_PLAN_SLOTS,
        PinnedSlot::Mtp(index) => index < MTP_PLAN_SLOTS,
    }
}

/// Every tensor that has a place has one within its file.
pub proof fn pinned_slots_are_in_range(slot: TensorSlot)
    requires
        slot_of(slot) is Ok,
    ensures
        slot_in_range(slot_of(slot)->Ok_0),
{
    if let TensorSlot::Layer { role: ModelRole::Target, layer, tensor } = slot {
        layer_base_closed_form(layer as nat);
    }
}

/// No two tensors share a place.
pub proof fn pinned_slots_are_distinct(left: TensorSlot, right: TensorSlot)
    requires
        slot_of(left) is Ok,
        slot_of(right) is Ok,
        slot_of(left) == slot_of(right),
    ensures
        left == right,
{
    if let TensorSlot::Layer { role: ModelRole::Target, layer, tensor } = left {
        layer_base_closed_form(layer as nat);
        if let TensorSlot::Layer {
            role: ModelRole::Target,
            layer: other_layer,
            tensor: other_tensor,
        } = right {
            layer_base_closed_form(other_layer as nat);
            if layer < other_layer {
                layers_do_not_overlap(layer as nat, other_layer as nat);
            } else if other_layer < layer {
                layers_do_not_overlap(other_layer as nat, layer as nat);
            }
        }
    }
    if let TensorSlot::Layer { role: ModelRole::Target, layer, tensor } = right {
        layer_base_closed_form(layer as nat);
    }
}

proof fn layers_do_not_overlap(earlier: nat, later: nat)
    requires
        earlier < later,
    ensures
        layer_base(earlier) + layer_width(full_attention_layer(earlier)) <= layer_base(later),
    decreases later - earlier,
{
    if earlier + 1 < later {
        layers_do_not_overlap(earlier, (later - 1) as nat);
    }
}

/// What the plan of a checkpoint says about one tensor.
#[derive(Debug)]
pub struct TensorDescriptor {
    pub qtype: u32,
    pub dimensions: Vec<u64>,
}

/// Quantisation types that are transcoded to affine groups.
pub open spec fn affine_qtype(type_id: u32) -> bool {
    type_id == 8 || 11 <= type_id <= 13 || type_id == 20 || type_id == 21 || type_id == 23
}

/// Whether a quantisation type is transcoded to affine groups.
pub fn pinned_affine_qtype(type_id: u32) -> (affine: bool)
    ensures
        affine == affine_qtype(type_id),
{
    matches!(type_id, 8 | 11 | 12 | 13 | 20 | 21 | 23)
}

/// A target tensor that the kernels for two to four rows take.
#[derive(Debug, Clone, Copy, PartialEq, Eq)]
pub struct PinnedM234AffineSignature {
    pub target_slot: usize,
    pub layer: usize,
    pub tensor: LayerTensor,
    pub qtype: u32,
    pub dimensions: (u64, u64),
}

/// Dimensions that a projection of a target layer is pinned to.
pub open spec fn pinned_dimensions(full: bool, tensor: LayerTensor) -> Option<(u64, u64)> {
    match tensor {
        LayerTensor::MlpGate | LayerTensor::MlpUp => Some((5120, 17408)),
        LayerTensor::MlpDown => Some((17408, 5120)),
        LayerTensor::LinearQkv => if full { None } else { Some((5120, 10240)) },
        LayerTensor::LinearGate => if full { None } else { Some((5120, 6144)) },
        LayerTensor::LinearAlpha | LayerTensor::LinearBeta => if full { None } else {
            Some((5120, 48))
        },
        LayerTensor::LinearOutput => if full { None } else { Some((6144, 5120)) },
        LayerTensor::AttentionQuery => if full { Some((5120, 12288)) } else { None },
        LayerTensor::AttentionOutput => if full { Some((6144, 5120)) } else { None },
        _ => None,
    }
}

fn pinned_projection_dimensions(full: bool, tensor: LayerTensor) -> (dimensions: Option<(u64, u64)>)
    ensures
        dimensions == pinned_dimensions(full, tensor),
{
    match (full, tensor) {
        (_, LayerTensor::MlpGate) | (_, LayerTensor::MlpUp) => Some((5120, 17408)),
        (_, LayerTensor::MlpDown) => Some((17408, 5120)),
        (false, LayerTensor::LinearQkv) => Some((5120, 10240)),
        (false, LayerTensor::LinearGate) => Some((5120, 6144)),
        (false, LayerTensor::LinearAlpha) | (false, LayerTensor::LinearBeta) => Some((5120, 48)),
        (false, LayerTensor::LinearOutput) => Some((6144, 5120)),
        (true, LayerTensor::AttentionQuery) => Some((5120, 12288)),
        (true, LayerTensor::AttentionOutput) => Some((6144, 5120)),
        _ => None,
    }
}

/// Whether a list of dimensions is exactly this pair.
pub open spec fn is_pair(dimensions: Seq<u64>, pair: (u64, u64)) -> bool {
    dimensions.len() == 2 && dimensions[0] == pair.0 && dimensions[1] == pair.1
}

/// Whether a list of dimensions is exactly this pair.
pub fn dimensions_are(dimensions: &Vec<u64>, pair: (u64, u64)) -> (same: bool)
    ensures
        same == is_pair(dimensions@, pair),
{
    dimensions.len() == 2 && dimensions[0] == pair.0 && dimensions[1] == pair.1
}

/// The signature of a target tensor under `plan`: there is one for the pinned projections of the
/// first sixty-four layers whose planned dimensions are the pinned ones and whose type is affine.
pub open spec fn m234_signature(
    slot: TensorSlot,
    plan: Seq<TensorDescriptor>,
) -> Option<PinnedM234AffineSignature> {
    match slot {
        TensorSlot::Layer { role: ModelRole::Target, layer, tensor } => {
            let pinned = pinned_dimensions(full_attention_layer(layer as nat), tensor);
            if layer < TARGET_LAYERS && pinned is Some {
                let index = slot_of(slot)->Ok_0->Target_0;
                let planned = plan[index as int];
                if is_pair(planned.dimensions@, pinned->0) && affine_qtype(planned.qtype) {
                    Some(
                        PinnedM234AffineSignature {
                            target_slot: index,
                            layer,
                            tensor,
                            qtype: planned.qtype,
                            dimensions: pinned->0,
                        },
                    )
                } else {
                    None
                }
            } else {
                None
            }
        },
        _ => None,
    }
}

/// The signature under which the kernels for two to four rows take a tensor, if they do.
pub fn pinned_m234_affine_signature(slot: TensorSlot, plan: &[TensorDescriptor]) -> (signature:
    Option<PinnedM234AffineSignature>)
    requires
        plan@.len() == TARGET_PLAN_SLOTS,
    ensures
        signature == m234_signature(slot, plan@),
        signature is Some ==> slot_of(slot) == Ok::<PinnedSlot, SlotError>(
            PinnedSlot::Target(signature->0.target_slot),
        ),
{
    let (layer, tensor): (usize, LayerTensor) = match slot {
        TensorSlot::Layer { role: ModelRole::Target, layer, tensor } => (layer, tensor),
        _ => {
            return None;
        },
    };
    if layer >= TARGET_LAYERS {
        return None;
    }
    let dimensions: (u64, u64) = match pinned_projection_dimensions((layer + 1) % 4 == 0, tensor) {
        Some(dimensions) => dimensions,
        None => {
            return None;
        },
    };
    let target_slot: usize = match pinned_slot(slot) {
        Ok(PinnedSlot::Target(index)) => index,
        _ => {
            return None;
        },
    };
    proof {
        pinned_slots_are_in_range(slot);
    }
    let descriptor = &plan[target_slot];
    if !dimensions_are(&descriptor.dimensions, dimensions) || !pinned_affine_qtype(
        descriptor.qtype,
    ) {
        return None;
    }
    Some(
        PinnedM234AffineSignature { target_slot, layer, tensor, qtype: descriptor.qtype, dimensions },
    )
}

/// The three projections of a full-attention layer that one kernel runs together.
#[derive(Debug, Clone, Copy, PartialEq, Eq, Structural)]
pub struct PinnedQkvBundleSignature {
    pub key_slot: usize,
    pub query_slot: usize,
    pub value_slot: usize,
    pub query_qtype: u32,
    pub key_qtype: u32,
    pub value_qtype: u32,
}

/// Query, key and value types of the full-attention layers, in order.
pub const PINNED_QKV_QTYPES: [(u32, u32, u32); 16] = [
    (13, 12, 13),
    (12, 13, 13),
    (13, 14, 8),
    (12, 14, 8),
    (12, 14, 14),
    (12, 13, 8),
    (23, 14, 8),
    (13, 8, 8),
    (13, 14, 8),
    (12, 14, 14),
    (13, 14, 14),
    (23, 14, 13),
    (13, 14, 8),
    (12, 14, 8),
    (13, 14, 8),
    (13, 14, 8),
];

/// Whether the plan describes a tensor of this type and these dimensions.
pub open spec fn planned_as(planned: TensorDescriptor, qtype: u32, pair: (u64, u64)) -> bool {
    planned.qtype == qtype && is_pair(planned.dimensions@, pair)
}

/// The bundle of a layer under `plan`: only full-attention layers of the target have one, and
/// only where the plan shows exactly the pinned types and dimensions.
pub open spec fn qkv_signature(
    role: ModelRole,
    layer: usize,
    plan: Seq<TensorDescriptor>,
) -> Option<PinnedQkvBundleSignature> {
    if role == ModelRole::Target && layer < TARGET_LAYERS && full_attention_layer(layer as nat) {
        let base = layer_base(layer as nat);
        let (query_qtype, key_qtype, value_qtype) = PINNED_QKV_QTYPES[layer as int / 4];
        let signature = PinnedQkvBundleSignature {
            key_slot: base as usize,
            query_slot: (base + 4) as usize,
            value_slot: (base + 6) as usize,
            query_qtype,
            key_qtype,
            value_qtype,
        };
        if planned_as(plan[base as int], key_qtype, (5120, 1024)) && planned_as(
            plan[base as int + 4],
            query_qtype,
            (5120, 12288),
        ) && planned_as(plan[base as int + 6], value_qtype, (5120, 1024)) {
            Some(signature)
        } else {
            None
        }
    } else {
        None
    }
}

/// The bundle under which the projections of a layer are run together, if they are.
pub fn pinned_qkv_bundle_signature(role: ModelRole, layer: usize, plan: &[TensorDescriptor]) -> (
    signature: Option<PinnedQkvBundleSignature>)
    requires
        plan@.len() == TARGET_PLAN_SLOTS,
    ensures
        signature == qkv_signature(role, layer, plan@),
{
    if role != ModelRole::Target || layer >= TARGET_LAYERS || (layer + 1) % 4 != 0 {
        return None;
    }
    let (query_qtype, key_qtype, value_qtype): (u32, u32, u32) = PINNED_QKV_QTYPES[layer / 4];
    let base: usize = 3 + layer * 14 - (layer / 4) * 3;
    proof {
        layer_base_closed_form(layer as nat);
    }
    let key = &plan[base];
    let query = &plan[base + 4];
    let value = &plan[base + 6];
    if key.qtype != key_qtype || !dimensions_are(&key.dimensions, (5120, 1024)) || query.qtype
        != query_qtype || !dimensions_are(&query.dimensions, (5120, 12288)) || value.qtype
        != value_qtype || !dimensions_are(&value.dimensions, (5120, 1024)) {
        return None;
    }
    Some(
        PinnedQkvBundleSignature {
            key_slot: base,
            query_slot: base + 4,
            value_slot: base + 6,
            query_qtype,
            key_qtype,
            value_qtype,
        },
    )
}

/// A bundle takes the very tensors that the slot table names for its layer.
pub proof fn qkv_bundle_uses_layer_slots(role: ModelRole, layer: usize, plan: Seq<TensorDescriptor>)
    requires
        qkv_signature(role, layer, plan) is Some,
    ensures
        ({
            let signature = qkv_signature(role, layer, plan)->0;
            &&& slot_of(
                TensorSlot::Layer { role, layer, tensor: LayerTensor::AttentionKey },
            ) == Ok::<PinnedSlot, SlotError>(PinnedSlot::Target(signature.key_slot))
            &&& slot_of(
                TensorSlot::Layer { role, layer, tensor: LayerTensor::AttentionQuery },
            ) == Ok::<PinnedSlot, SlotError>(PinnedSlot::Target(signature.query_slot))
            &&& slot_of(
                TensorSlot::Layer { role, layer, tensor: LayerTensor::AttentionValue },
            ) == Ok::<PinnedSlot, SlotError>(PinnedSlot::Target(signature.value_slot))
        }),
{
}

/// A drafter tensor that the kernel for two rows takes.
#[derive(Debug, Clone, Copy, PartialEq, Eq)]
pub struct PinnedM2AffineSignature {
    pub mtp_slot: usize,
    pub qtype: u32,
    pub dimensions: (u64, u64),
}

/// The drafter tensors that the kernel for two rows takes: the three projections of its
/// feed-forward block and its input projection.
pub open spec fn m2_signature(slot: TensorSlot) -> Option<PinnedM2AffineSignature> {
    match slot {
        TensorSlot::Layer { role: ModelRole::Mtp, layer: 0, tensor: LayerTensor::MlpDown } => Some(
            PinnedM2AffineSignature { mtp_slot: 10, qtype: 12, dimensions: (17408, 5120) },
        ),
        TensorSlot::Layer { role: ModelRole::Mtp, layer: 0, tensor: LayerTensor::MlpGate } => Some(
            PinnedM2AffineSignature { mtp_slot: 11, qtype: 12, dimensions: (5120, 17408) },
        ),
        TensorSlot::Layer { role: ModelRole::Mtp, layer: 0, tensor: LayerTensor::MlpUp } => Some(
            PinnedM2AffineSignature { mtp_slot: 12, qtype: 12, dimensions: (5120, 17408) },
        ),
        TensorSlot::MtpProjection => Some(
            PinnedM2AffineSignature { mtp_slot: 13, qtype: 12, dimensions: (10240, 5120) },
        ),
        _ => None,
    }
}

/// The signature under which the kernel for two rows takes a drafter tensor, if it does.
pub fn pinned_m2_affine_signature(slot: TensorSlot) -> (signature: Option<PinnedM2AffineSignature>)
    ensures
        signature == m2_signature(slot),
{
    let (mtp_slot, dimensions): (usize, (u64, u64)) = match slot {
        TensorSlot::Layer { role: ModelRole::Mtp, layer: 0, tensor: LayerTensor::MlpDown } => (
            10,
            (17408, 5120),
        ),
        TensorSlot::Layer { role: ModelRole::Mtp, layer: 0, tensor: LayerTensor::MlpGate } => (
            11,
            (5120, 17408),
        ),
        TensorSlot::Layer { role: ModelRole::Mtp, layer: 0, tensor: LayerTensor::MlpUp } => (
            12,
            (5120, 17408),
        ),
        TensorSlot::MtpProjection => (13, (10240, 5120)),
        _ => {
            return None;
        },
    };
    Some(PinnedM2AffineSignature { mtp_slot, qtype: 12, dimensions })
}

/// A tensor that the kernels for two to four rows take belongs to a layer of the target, stands
/// where its signature says, and is planned with the signature's type and dimensions. No tensor of
/// the drafter is among them.
pub proof fn allowlisted_tensors_are_planned(slot: TensorSlot, plan: Seq<TensorDescriptor>)
    ensures
        m234_signature(slot, plan) matches Some(signature) ==> {
            let planned = plan[signature.target_slot as int];
            &&& slot == (TensorSlot::Layer {
                role: ModelRole::Target,
                layer: signature.layer,
                tensor: signature.tensor,
            })
            &&& signature.layer < TARGET_LAYERS
            &&& slot_of(slot) == Ok::<PinnedSlot, SlotError>(
                PinnedSlot::Target(signature.target_slot),
            )
            &&& 3 <= signature.target_slot < TARGET_PLAN_SLOTS
            &&& planned.qtype == signature.qtype
            &&& affine_qtype(signature.qtype)
            &&& is_pair(planned.dimensions@, signature.dimensions)
        },
        slot matches TensorSlot::Layer { role: ModelRole::Mtp, .. } ==> m234_signature(
            slot,
            plan,
        ) is None,
{
    if let TensorSlot::Layer { layer, .. } = slot {
        layer_base_closed_form(layer as nat);
    }
}

/// Different tensors that the kernels for two to four rows take stand in different places.
pub proof fn allowlisted_tensors_are_distinct(
    left: TensorSlot,
    right: TensorSlot,
    plan: Seq<TensorDescriptor>,
)
    requires
        left != right,
        m234_signature(left, plan) is Some,
        m234_signature(right, plan) is Some,
    ensures
        m234_signature(left, plan)->0.target_slot != m234_signature(right, plan)->0.target_slot,
{
    allowlisted_tensors_are_planned(left, plan);
    allowlisted_tensors_are_planned(right, plan);
    if m234_signature(left, plan)->0.target_slot == m234_signature(right, plan)->0.target_slot {
        pinned_slots_are_distinct(left, right);
    }
}

/// The allowlist of the kernel for two rows agrees with the slot table, and no tensor is on both
/// allowlists.
pub proof fn kernel_allowlists_agree_with_slots(slot: TensorSlot, plan: Seq<TensorDescriptor>)
    ensures
        m2_signature(slot) is Some ==> slot_of(slot) == Ok::<PinnedSlot, SlotError>(
            PinnedSlot::Mtp(m2_signature(slot)->0.mtp_slot),
        ),
        m234_signature(slot, plan) is Some ==> slot_of(slot) == Ok::<PinnedSlot, SlotError>(
            PinnedSlot::Target(m234_signature(slot, plan)->0.target_slot),
        ),
        !(m2_signature(slot) is Some && m234_signature(slot, plan) is Some),
{
}

} // verus!
