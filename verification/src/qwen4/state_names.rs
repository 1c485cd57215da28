//! Names under which a sequence snapshot keeps its tensors.

use vstd::prelude::*;
use crate::text::{decimal, decimal_reads_back, decimal_text, same_text};

verus! {

/// A layer of the model, as far as its saved state depends on it.
#[derive(Debug, Clone, Copy, PartialEq, Eq, Structural)]
pub struct LayerKind {
    pub is_linear: bool,
    pub has_ple: bool,
}

/// Part of a layer's saved state.
#[derive(Debug, Clone, Copy, PartialEq, Eq, Structural)]
pub enum LayerPart {
    Kind,
    Offset,
    AuxiliaryKeys,
    TailStart,
    TailEnd,
    RollbackHorizon,
    BlockSize,
    BlockKeys,
    ConvState,
    StateCache,
    PleConvState,
    PleTokenHistory,
    Keys,
    Values,
}

impl LayerPart {
    pub open spec fn suffix(self) -> Seq<char> {
        match self {
            LayerPart::Kind => "kind"@,
            LayerPart::Offset => "offset"@,
            LayerPart::AuxiliaryKeys => "auxiliary_keys"@,
            LayerPart::TailStart => "auxiliary_tail_start"@,
            LayerPart::TailEnd => "auxiliary_tail_end"@,
            LayerPart::RollbackHorizon => "auxiliary_rollback_horizon"@,
            LayerPart::BlockSize => "auxiliary_block_size"@,
            LayerPart::BlockKeys => "auxiliary_block_keys"@,
            LayerPart::ConvState => "conv_state"@,
            LayerPart::StateCache => "state_cache"@,
            LayerPart::PleConvState => "ple_conv_state"@,
            LayerPart::PleTokenHistory => "ple_token_history"@,
            LayerPart::Keys => "keys"@,
            LayerPart::Values => "values"@,
        }
    }

    fn suffix_text(self) -> (text: &'static str)
        ensures
            text@ == self.suffix(),
    {
        match self {
            LayerPart::Kind => "kind",
            LayerPart::Offset => "offset",
            LayerPart::AuxiliaryKeys => "auxiliary_keys",
            LayerPart::TailStart => "auxiliary_tail_start",
            LayerPart::TailEnd => "auxiliary_tail_end",
            LayerPart::RollbackHorizon => "auxiliary_rollback_horizon",
            LayerPart::BlockSize => "auxiliary_block_size",
            LayerPart::BlockKeys => "auxiliary_block_keys",
            LayerPart::ConvState => "conv_state",
            LayerPart::StateCache => "state_cache",
            LayerPart::PleConvState => "ple_conv_state",
            LayerPart::PleTokenHistory => "ple_token_history",
            LayerPart::Keys => "keys",
            LayerPart::Values => "values",
        }
    }
}

/// The name of a part of a layer's saved state.
pub open spec fn layer_name(index: nat, part: LayerPart) -> Seq<char> {
    "layer."@ + decimal(index) + "."@ + part.suffix()
}

/// The name of a part of a layer's saved state.
pub fn layer_part_name(index: usize, part: LayerPart) -> (name: String)
    ensures
        name@ == layer_name(index as nat, part),
{
    let mut name: String = "layer.".to_owned();
    name.append(decimal_text(index).as_str());
    name.append(".");
    name.append(part.suffix_text());
    name
}

/// Parts that a layer of this kind may save.
pub open spec fn part_allowed(layer: LayerKind, part: LayerPart) -> bool {
    match part {
        LayerPart::Kind | LayerPart::Offset => true,
        LayerPart::ConvState | LayerPart::StateCache => layer.is_linear,
        LayerPart::PleConvState | LayerPart::PleTokenHistory => layer.is_linear && layer.has_ple,
        _ => !layer.is_linear,
    }
}

/// Whether a name is that of a part that layer `index` may save.
pub open spec fn allowed_in_layer(index: nat, layer: LayerKind, name: Seq<char>) -> bool {
    exists|part: LayerPart|
        #[trigger] part_allowed(layer, part) && name == layer_name(index, part)
}

fn names_part(index: usize, part: LayerPart, name: &str) -> (same: bool)
    ensures
        same == (name@ == layer_name(index as nat, part)),
{
    same_text(name, layer_part_name(index, part).as_str())
}

/// Whether a name is that of a part that layer `index` may save.
pub fn is_allowed_in_layer(index: usize, layer: LayerKind, name: &str) -> (allowed: bool)
    ensures
        allowed == allowed_in_layer(index as nat, layer, name@),
{
    proof {
        assert(part_allowed(layer, LayerPart::Kind));
        assert(part_allowed(layer, LayerPart::Offset));
        assert(part_allowed(layer, LayerPart::ConvState) == layer.is_linear);
        assert(part_allowed(layer, LayerPart::StateCache) == layer.is_linear);
        assert(part_allowed(layer, LayerPart::PleConvState) == (layer.is_linear && layer.has_ple));
        assert(part_allowed(layer, LayerPart::PleTokenHistory) == (layer.is_linear
            && layer.has_ple));
        assert(part_allowed(layer, LayerPart::AuxiliaryKeys) == !layer.is_linear);
        assert(part_allowed(layer, LayerPart::TailStart) == !layer.is_linear);
        assert(part_allowed(layer, LayerPart::TailEnd) == !layer.is_linear);
        assert(part_allowed(layer, LayerPart::RollbackHorizon) == !layer.is_linear);
        assert(part_allowed(layer, LayerPart::BlockSize) == !layer.is_linear);
        assert(part_allowed(layer, LayerPart::BlockKeys) == !layer.is_linear);
        assert(part_allowed(layer, LayerPart::Keys) == !layer.is_linear);
        assert(part_allowed(layer, LayerPart::Values) == !layer.is_linear);
    }
    if names_part(index, LayerPart::Kind, name) || names_part(index, LayerPart::Offset, name) {
        return true;
    }
    if layer.is_linear {
        if names_part(index, LayerPart::ConvState, name) || names_part(
            index,
            LayerPart::StateCache,
            name,
        ) {
            return true;
        }
        layer.has_ple && (names_part(index, LayerPart::PleConvState, name) || names_part(
            index,
            LayerPart::PleTokenHistory,
            name,
        ))
    } else {
        names_part(index, LayerPart::AuxiliaryKeys, name) || names_part(
            index,
            LayerPart::TailStart,
            name,
        ) || names_part(index, LayerPart::TailEnd, name) || names_part(
            index,
            LayerPart::RollbackHorizon,
            name,
        ) || names_part(index, LayerPart::BlockSize, name) || names_part(
            index,
            LayerPart::BlockKeys,
            name,
        ) || names_part(index, LayerPart::Keys, name) || names_part(index, LayerPart::Values, name)
    }
}

/// Different parts have different suffixes.
proof fn suffixes_are_distinct(left: LayerPart, right: LayerPart)
    requires
        left.suffix() == right.suffix(),
    ensures
        left == right,
{
    reveal_strlit("kind");
    reveal_strlit("offset");
    reveal_strlit("auxiliary_keys");
    reveal_strlit("auxiliary_tail_start");
    reveal_strlit("auxiliary_tail_end");
    reveal_strlit("auxiliary_rollback_horizon");
    reveal_strlit("auxiliary_block_size");
    reveal_strlit("auxiliary_block_keys");
    reveal_strlit("conv_state");
    reveal_strlit("state_cache");
    reveal_strlit("ple_conv_state");
    reveal_strlit("ple_token_history");
    reveal_strlit("keys");
    reveal_strlit("values");
    assert("kind"@.len() == 4);
    assert("offset"@.len() == 6);
    assert("auxiliary_keys"@.len() == 14);
    assert("auxiliary_tail_start"@.len() == 20);
    assert("auxiliary_tail_end"@.len() == 18);
    assert("auxiliary_rollback_horizon"@.len() == 26);
    assert("auxiliary_block_size"@.len() == 20);
    assert("auxiliary_block_keys"@.len() == 20);
    assert("conv_state"@.len() == 10);
    assert("state_cache"@.len() == 11);
    assert("ple_conv_state"@.len() == 14);
    assert("ple_token_history"@.len() == 17);
    assert("keys"@.len() == 4);
    assert("values"@.len() == 6);
    assert("kind"@[1] == 'i');
    assert("keys"@[1] == 'e');
    assert("offset"@[0] == 'o');
    assert("values"@[0] == 'v');
    assert("auxiliary_keys"@[0] == 'a');
    assert("ple_conv_state"@[0] == 'p');
    assert("auxiliary_tail_start"@[10] == 't');
    assert("auxiliary_block_size"@[10] == 'b');
    assert("auxiliary_block_keys"@[10] == 'b');
    assert("auxiliary_block_size"@[16] == 's');
    assert("auxiliary_block_keys"@[16] == 'k');
}

/// A name belongs to one layer and one part.
pub proof fn layer_names_are_distinct(i: nat, left: LayerPart, j: nat, right: LayerPart)
    requires
        layer_name(i, left) == layer_name(j, right),
    ensures
        i == j,
        left == right,
{
    reveal_strlit("layer.");
    reveal_strlit(".");
    let name = layer_name(i, left);
    let a = decimal(i);
    let b = decimal(j);
    decimal_reads_back(i);
    decimal_reads_back(j);
    assert(name[6 + a.len() as int] == '.');
    assert(name[6 + b.len() as int] == '.');
    if a.len() < b.len() {
        assert(name[6 + a.len() as int] == b[a.len() as int]);
    }
    if b.len() < a.len() {
        assert(name[6 + b.len() as int] == a[b.len() as int]);
    }
    assert(a == name.subrange(6, 6 + a.len() as int));
    assert(b == name.subrange(6, 6 + b.len() as int));
    assert(left.suffix() == name.skip(7 + a.len() as int));
    assert(right.suffix() == name.skip(7 + b.len() as int));
    suffixes_are_distinct(left, right);
}

} // verus!
