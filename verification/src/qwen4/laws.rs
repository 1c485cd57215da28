//! What chunks, layouts, rollbacks, settings and saved state come to.

use vstd::prelude::*;
use crate::json::JsonTree;
use crate::qwen4::checkpoint::{
    entry_problem, integer_entry, overrides_problem, override_problem, quantization_problem,
    root_verdict, text_entry, QuantizationKey,
};
use crate::qwen4::chunks::{chunk_ranges, tail_of, QWEN4_PREFILL_MICROCHUNK_TOKENS};
use crate::qwen4::compact::{
    COMPACT_VOCABULARY, DRAFT_CONTROL_END, DRAFT_CONTROL_START, MTP_DRAFT_PADDED, MTP_DRAFT_PREFIX,
    MTP_VERIFY_PADDED, MTP_VERIFY_PREFIX,
};
use crate::qwen4::config::{narrowed_integers, sections_of, Qwen4Config};
use crate::qwen4::layers::{layer_kind, ExpertLoad, Qwen4DecoderLayer};
use crate::qwen4::restore::{
    attention_saved, has_name, named, names_match, opened, restored_attention, restored_linear,
    restored_sequence, saved_integer, saved_pages, RestoreErrorView, RestoredLayer, SnapshotView,
};
use crate::qwen4::rollback::{restore_of, GdnRollbackSnapshot, LayerShape, Qwen4RollbackPlan};
use crate::qwen4::shards::{entries_problem, index_problem, path_components};
use crate::qwen4::state::{all_saveable, layer_paged, saveable, LayerState, LiveLayerView};
use crate::qwen4::state_laws::{saved_snapshot, saved_state_comes_back, well_shaped};
use crate::qwen4::state_names::{layer_name, part_allowed, LayerKind, LayerPart};
use crate::qwen4::weights::{
    holds_part, laid_out, last_place, sanitized, unnested, unnested_name, WeightView,
};
use crate::qwen_rope_state::RopeState;
use crate::text::decimal;

verus! {

/// Chunks are as long as asked for, but for the last one, which has what is left.
pub proof fn chunks_are_full_but_the_last(sequence: int, chunk: int, i: int)
    requires
        0 < sequence <= i32::MAX,
        0 < chunk <= i32::MAX,
        0 <= i < chunk_ranges(sequence, chunk).len(),
    ensures
        ({
            let ranges = chunk_ranges(sequence, chunk);
            let length = ranges[i].end - ranges[i].start;
            &&& i < ranges.len() - 1 ==> length == chunk
            &&& i == ranges.len() - 1 ==> 1 <= length <= chunk && ranges[i].end == sequence
            &&& ranges[i].start == i * chunk
            &&& (ranges.len() - 1) * chunk < sequence <= ranges.len() * chunk
        }),
{
    let ranges = chunk_ranges(sequence, chunk);
    let count = (sequence + chunk - 1) / chunk;
    vstd::arithmetic::div_mod::lemma_fundamental_div_mod(sequence + chunk - 1, chunk);
    vstd::arithmetic::div_mod::lemma_mod_bound(sequence + chunk - 1, chunk);
    vstd::arithmetic::div_mod::lemma_div_pos_is_pos(sequence + chunk - 1, chunk);
    assert(chunk * count == count * chunk) by (nonlinear_arith);
    assert((count - 1) * chunk == count * chunk - chunk) by (nonlinear_arith);
    assert((i + 1) * chunk == i * chunk + chunk) by (nonlinear_arith);
    assert(0 <= i * chunk) by (nonlinear_arith)
        requires
            i >= 0,
            chunk > 0,
    ;
    if i < count - 1 {
        assert((i + 1) * chunk <= (count - 1) * chunk) by (nonlinear_arith)
            requires
                i + 1 <= count - 1,
                chunk > 0,
        ;
    } else {
        assert(i == count - 1);
    }
}

/// A tail is the end of what it is cut from.
pub proof fn tails_are_ends(rows: Seq<i32>, length: nat)
    requires
        length <= rows.len(),
    ensures
        tail_of(rows, length).len() == length,
        forall|i: int|
            0 <= i < length ==> #[trigger] tail_of(rows, length)[i] == rows[rows.len() - length + i],
{
}

/// A captured layer is brought back by running the retained rows again. Its convolution state is
/// what lies behind them: as many rows as the kernel looks back on, right after the retained ones of
/// the captured input, which starts with the state before the block. N-grams are put back where they
/// were captured, and looked up again where something is retained.
pub proof fn captures_are_brought_back_behind_retained_rows(
    snapshot: GdnRollbackSnapshot,
    layers: Seq<LayerShape>,
    plan: Qwen4RollbackPlan,
)
    requires
        snapshot.layer_idx < layers.len(),
        1 <= layers[snapshot.layer_idx as int].conv_kernel_size,
        0 <= plan.accepted_block_len,
        plan.accepted_block_len + layers[snapshot.layer_idx as int].conv_kernel_size <= i32::MAX,
    ensures
        ({
            let restore = restore_of(snapshot, layers, plan);
            let kernel = layers[snapshot.layer_idx as int].conv_kernel_size;
            &&& restore.layer_idx == snapshot.layer_idx
            &&& restore.replay_len == plan.accepted_block_len
            &&& restore.conv_start == plan.accepted_block_len
            &&& restore.conv_end - restore.conv_start == kernel - 1
            &&& restore.offset == plan.final_offset
            &&& restore.restore_ple == snapshot.has_ple
            &&& restore.replay_ple == (snapshot.has_ple && plan.accepted_block_len > 0)
        }),
{
}

/// A layer is recurrent if its listed type says so. Unlisted layers are, but for those whose ordinal
/// is a multiple of the interval; without an interval all of them are.
pub proof fn unlisted_layers_alternate(config: Qwen4Config, layer: int, times: int)
    requires
        0 <= layer,
        1 <= times,
    ensures
        layer < config.layer_types@.len() ==> config.linear_layer(layer) == (
        config.layer_types@[layer]@ == "linear_attention"@),
        config.full_attention_interval == 0 && layer >= config.layer_types@.len()
            ==> config.linear_layer(layer),
        config.full_attention_interval > 0 && times * config.full_attention_interval - 1
            >= config.layer_types@.len() ==> !config.linear_layer(
            times * config.full_attention_interval - 1,
        ),
        config.full_attention_interval > 0 && layer >= config.layer_types@.len()
            && !config.linear_layer(layer) ==> exists|multiple: int|
            #[trigger] (multiple * config.full_attention_interval) == layer + 1,
{
    let interval = config.full_attention_interval as int;
    if interval > 0 {
        vstd::arithmetic::div_mod::lemma_mod_multiples_basic(times, interval);
        vstd::arithmetic::div_mod::lemma_fundamental_div_mod(layer + 1, interval);
        if (layer + 1) % interval == 0 {
            let multiple = (layer + 1) / interval;
            assert(multiple * interval == interval * multiple) by (nonlinear_arith);
            assert(multiple * interval == layer + 1);
        }
    }
}

/// A layer embeds n-grams exactly if its ordinal, counted from one, is listed.
pub proof fn listed_layers_embed_ngrams(config: Qwen4Config, layer: usize)
    requires
        layer < usize::MAX,
    ensures
        layer_kind(&config, layer as int).has_ple == config.ple_layer_ids@.contains(
            (layer + 1) as usize,
        ),
        layer_kind(&config, layer as int).is_linear == config.linear_layer(layer as int),
{
    let ids = config.ple_layer_ids@;
    if ids.contains((layer + 1) as usize) {
        let at = ids.index_of((layer + 1) as usize);
        assert(ids[at] == layer + 1);
    }
    if layer_kind(&config, layer as int).has_ple {
        let at = choose|i: int| 0 <= i < ids.len() && #[trigger] ids[i] == layer + 1;
        assert(ids[at] == (layer + 1) as usize);
    }
}

/// Three integers under their key are the sections; anything else leaves eleven, eleven and ten.
pub proof fn three_integers_are_sections(parameters: JsonTree, a: i64, b: i64, c: i64)
    ensures
        sections_of(None) == seq![11i32, 11i32, 10i32],
        parameters.get("mrope_section"@) is None ==> sections_of(Some(parameters)) == seq![
            11i32,
            11i32,
            10i32,
        ],
        parameters.get("mrope_section"@) matches Some(JsonTree::List(items)) ==> (items.len() == 3
            && items[0].integer() == Some(a) && items[1].integer() == Some(b)
            && items[2].integer() == Some(c) ==> sections_of(Some(parameters)) == seq![
            a as i32,
            b as i32,
            c as i32,
        ]),
        sections_of(Some(parameters)).len() == 3,
{
    if let Some(JsonTree::List(items)) = parameters.get("mrope_section"@) {
        if items.len() == 3 && items[0].integer() == Some(a) && items[1].integer() == Some(b)
            && items[2].integer() == Some(c) {
            reveal_with_fuel(narrowed_integers, 4);
            let two = items.drop_last();
            let one = two.drop_last();
            assert(two.last() == items[1]);
            assert(one.last() == items[0]);
            assert(one.drop_last().len() == 0);
            assert(narrowed_integers(items) =~= seq![a as i32, b as i32, c as i32]);
        }
    }
}

/// Convolution kernels whose last axis is longer than one have their last two axes swapped; all other
/// tensors stay as they are.
pub proof fn only_raw_kernels_are_swapped(weight: WeightView)
    ensures
        ({
            let raw = holds_part(weight.name, "conv1d.weight"@) && weight.shape.len() >= 3
                && weight.shape[weight.shape.len() - 1] != 1;
            let rank = weight.shape.len() as int;
            let result = laid_out(weight);
            &&& result.name == weight.name
            &&& result.handle == weight.handle
            &&& !raw ==> result == weight
            &&& raw ==> result.swapped != weight.swapped && result.shape.len() == rank
            &&& raw ==> result.shape[rank - 1] == weight.shape[rank - 2] && result.shape[rank - 2]
                == weight.shape[rank - 1]
            &&& raw ==> forall|i: int|
                0 <= i < rank - 2 ==> #[trigger] result.shape[i] == weight.shape[i]
        }),
{
}

/// Sanitising keeps every tensor, in order and laid out, but for a head that shares the embedding.
pub proof fn sanitizing_drops_only_a_tied_head(
    weights: Seq<WeightView>,
    tie_word_embeddings: bool,
    i: int,
)
    requires
        0 <= i < weights.len(),
    ensures
        (tie_word_embeddings && weights[i].name == "lm_head.weight"@) || sanitized(
            weights,
            tie_word_embeddings,
        ).contains(laid_out(weights[i])),
        !tie_word_embeddings ==> sanitized(weights, tie_word_embeddings).len() == weights.len()
            && sanitized(weights, tie_word_embeddings)[i] == laid_out(weights[i]),
        forall|k: int|
            0 <= k < sanitized(weights, tie_word_embeddings).len() && tie_word_embeddings ==> (
            #[trigger] sanitized(weights, tie_word_embeddings)[k]).name != "lm_head.weight"@,
    decreases weights.len(),
{
    let front = weights.drop_last();
    let rest = sanitized(front, tie_word_embeddings);
    let all = sanitized(weights, tie_word_embeddings);
    if front.len() > 0 {
        let inner = if i < front.len() {
            i
        } else {
            0
        };
        sanitizing_drops_only_a_tied_head(front, tie_word_embeddings, inner);
        if i < front.len() && !(tie_word_embeddings && weights[i].name == "lm_head.weight"@) {
            let at = rest.index_of(laid_out(weights[i]));
            assert(all[at] == laid_out(weights[i]));
        }
    }
    if i == weights.len() - 1 && !(tie_word_embeddings && weights[i].name == "lm_head.weight"@) {
        assert(all[all.len() - 1] == laid_out(weights[i]));
    }
}

/// Of tensors that come under the same name, the last one stays.
pub proof fn last_of_a_name_stays(weights: Seq<WeightView>, i: int)
    requires
        0 <= i < weights.len(),
        forall|later: int|
            i < later < weights.len() ==> unnested_name((#[trigger] weights[later]).name)
                != unnested_name(weights[i].name),
    ensures
        unnested(weights).contains(
            WeightView { name: unnested_name(weights[i].name), ..weights[i] },
        ),
    decreases weights.len(),
{
    let front = weights.drop_last();
    let before = unnested(front);
    let last = WeightView { name: unnested_name(weights.last().name), ..weights.last() };
    let all = unnested(weights);
    let place = last_place(before, last.name);
    last_place_is_named(before, last.name);
    if i == weights.len() - 1 {
        if place >= 0 {
            assert(all[place] == last);
        } else {
            assert(all[all.len() - 1] == last);
        }
    } else {
        assert forall|later: int| i < later < front.len() implies unnested_name(
            (#[trigger] front[later]).name,
        ) != unnested_name(front[i].name) by {
            assert(weights[later] == front[later]);
        }
        last_of_a_name_stays(front, i);
        let kept = WeightView { name: unnested_name(weights[i].name), ..weights[i] };
        let at = before.index_of(kept);
        assert(before[at] == kept);
        assert(weights[weights.len() - 1] == weights.last());
        assert(all[at] == kept);
    }
}

proof fn last_place_is_named(weights: Seq<WeightView>, name: Seq<char>)
    ensures
        -1 <= last_place(weights, name) < weights.len(),
        last_place(weights, name) >= 0 ==> weights[last_place(weights, name)].name == name,
    decreases weights.len(),
{
    if weights.len() > 0 && weights.last().name != name {
        last_place_is_named(weights.drop_last(), name);
    }
}

/// A quantisation entry is accepted exactly if it names a positive group size, a supported number of
/// bits and the affine mode.
pub proof fn accepted_entries_are_affine(entry: JsonTree, name: Seq<char>)
    ensures
        entry_problem(entry, name) is None <==> {
            let group_size = integer_entry(entry, "group_size"@);
            let bits = integer_entry(entry, "bits"@);
            &&& group_size is Some && 1 <= group_size->0 <= 0x7fff_ffff
            &&& bits is Some && 2 <= bits->0 <= 8 && bits->0 != 7
            &&& text_entry(entry, "mode"@) == Some("affine"@)
        },
{
}

/// A quantisation is accepted exactly if it is an object whose default is accepted and whose
/// overrides, which are all entries but the three of the default, are objects that are accepted.
pub proof fn accepted_quantizations_have_accepted_overrides(entries: Seq<(Seq<char>, JsonTree)>)
    ensures
        quantization_problem(JsonTree::Object(entries)) is None <==> entry_problem(
            JsonTree::Object(entries),
            "quantization"@,
        ) is None && forall|i: int|
            0 <= i < entries.len() && (#[trigger] entries[i]).0 != "group_size"@ && entries[i].0
                != "bits"@ && entries[i].0 != "mode"@ ==> entries[i].1 is Object && entry_problem(
                entries[i].1,
                entries[i].0,
            ) is None,
{
    overrides_are_all_checked(entries);
}

proof fn overrides_are_all_checked(entries: Seq<(Seq<char>, JsonTree)>)
    ensures
        overrides_problem(entries) is None <==> forall|i: int|
            0 <= i < entries.len() && (#[trigger] entries[i]).0 != "group_size"@ && entries[i].0
                != "bits"@ && entries[i].0 != "mode"@ ==> entries[i].1 is Object && entry_problem(
                entries[i].1,
                entries[i].0,
            ) is None,
    decreases entries.len(),
{
    if entries.len() > 0 {
        let front = entries.drop_last();
        overrides_are_all_checked(front);
        assert forall|i: int| 0 <= i < front.len() implies front[i] == entries[i] by {}
        assert(entries.last() == entries[entries.len() - 1]);
        let fine = override_problem(entries.last().0, entries.last().1) is None;
        if overrides_problem(entries) is None {
            assert forall|i: int|
                0 <= i < entries.len() && (#[trigger] entries[i]).0 != "group_size"@ && entries[i].0
                    != "bits"@ && entries[i].0 != "mode"@ implies entries[i].1 is Object
                && entry_problem(entries[i].1, entries[i].0) is None by {
                if i < front.len() {
                    assert(front[i] == entries[i]);
                }
            }
        }
        if forall|i: int|
            0 <= i < entries.len() && (#[trigger] entries[i]).0 != "group_size"@ && entries[i].0
                != "bits"@ && entries[i].0 != "mode"@ ==> entries[i].1 is Object && entry_problem(
                entries[i].1,
                entries[i].0,
            ) is None {
            assert forall|i: int|
                0 <= i < front.len() && (#[trigger] front[i]).0 != "group_size"@ && front[i].0
                    != "bits"@ && front[i].0 != "mode"@ implies front[i].1 is Object
                && entry_problem(front[i].1, front[i].0) is None by {
                assert(entries[i] == front[i]);
            }
            assert(fine);
        }
    }
}

/// A configuration is accepted exactly if it is of this architecture, has a text configuration, and
/// has a quantisation that is accepted, under either key; the shorter key is looked at first.
pub proof fn accepted_roots_are_complete(root: JsonTree)
    ensures
        root_verdict(root) is Ok <==> {
            let own = root.get("quantization"@);
            let other = root.get("quantization_config"@);
            &&& root is Object
            &&& text_entry(root, "model_type"@) == Some("qwen4_exp"@)
            &&& root.get("text_config"@) is Some && root.get("text_config"@)->0 is Object
            &&& own is Some ==> quantization_problem(own->0) is None
            &&& own is None ==> other is Some && quantization_problem(other->0) is None
        },
        root_verdict(root) matches Ok(key) ==> (key == QuantizationKey::Quantization) == (root.get(
            "quantization"@,
        ) is Some),
{
}

/// A shard index is accepted exactly if it maps at least one tensor and every tensor to a name of a
/// single component.
pub proof fn accepted_indexes_name_files(entries: Seq<(Seq<char>, JsonTree)>, index: JsonTree)
    requires
        index.get("weight_map"@) == Some(JsonTree::Object(entries)),
    ensures
        index_problem(index) is None <==> entries.len() > 0 && forall|i: int|
            0 <= i < entries.len() ==> (#[trigger] entries[i]).1 is Text && path_components(
                entries[i].1->Text_0,
            ) == 1,
{
    entries_are_all_checked(entries);
}

proof fn entries_are_all_checked(entries: Seq<(Seq<char>, JsonTree)>)
    ensures
        entries_problem(entries) is None <==> forall|i: int|
            0 <= i < entries.len() ==> (#[trigger] entries[i]).1 is Text && path_components(
                entries[i].1->Text_0,
            ) == 1,
    decreases entries.len(),
{
    if entries.len() > 0 {
        let front = entries.drop_last();
        entries_are_all_checked(front);
        assert(entries.last() == entries[entries.len() - 1]);
        if entries_problem(entries) is None {
            assert forall|i: int| 0 <= i < entries.len() implies (#[trigger] entries[i]).1 is Text
                && path_components(entries[i].1->Text_0) == 1 by {
                if i < front.len() {
                    assert(front[i] == entries[i]);
                }
            }
        }
        if forall|i: int|
            0 <= i < entries.len() ==> (#[trigger] entries[i]).1 is Text && path_components(
                entries[i].1->Text_0,
            ) == 1 {
            assert forall|i: int| 0 <= i < front.len() implies (#[trigger] front[i]).1 is Text
                && path_components(front[i].1->Text_0) == 1 by {
                assert(entries[i] == front[i]);
            }
        }
    }
}

/// The names under which the parts of a layer are saved.
pub proof fn saved_parts_are_called(index: nat)
    ensures
        layer_name(index, LayerPart::Kind) == "layer."@ + decimal(index) + "."@ + "kind"@,
        layer_name(index, LayerPart::Offset) == "layer."@ + decimal(index) + "."@ + "offset"@,
        layer_name(index, LayerPart::AuxiliaryKeys) == "layer."@ + decimal(index) + "."@
            + "auxiliary_keys"@,
        layer_name(index, LayerPart::TailStart) == "layer."@ + decimal(index) + "."@
            + "auxiliary_tail_start"@,
        layer_name(index, LayerPart::TailEnd) == "layer."@ + decimal(index) + "."@
            + "auxiliary_tail_end"@,
        layer_name(index, LayerPart::RollbackHorizon) == "layer."@ + decimal(index) + "."@
            + "auxiliary_rollback_horizon"@,
        layer_name(index, LayerPart::BlockSize) == "layer."@ + decimal(index) + "."@
            + "auxiliary_block_size"@,
        layer_name(index, LayerPart::BlockKeys) == "layer."@ + decimal(index) + "."@
            + "auxiliary_block_keys"@,
        layer_name(index, LayerPart::ConvState) == "layer."@ + decimal(index) + "."@
            + "conv_state"@,
        layer_name(index, LayerPart::StateCache) == "layer."@ + decimal(index) + "."@
            + "state_cache"@,
        layer_name(index, LayerPart::PleConvState) == "layer."@ + decimal(index) + "."@
            + "ple_conv_state"@,
        layer_name(index, LayerPart::PleTokenHistory) == "layer."@ + decimal(index) + "."@
            + "ple_token_history"@,
        layer_name(index, LayerPart::Keys) == "layer."@ + decimal(index) + "."@ + "keys"@,
        layer_name(index, LayerPart::Values) == "layer."@ + decimal(index) + "."@ + "values"@,
{
}

/// A layer is saved exactly if it stands at the length of the snapshot and is complete: keys and
/// values in eight bits with auxiliary keys, or both recurrent states, with those of the n-grams where
/// the layer embeds them.
pub proof fn only_complete_layers_are_saved(kind: LayerKind, layer: LiveLayerView, token_len: int)
    ensures
        saveable(kind, layer, token_len) == match layer {
            LayerState::Attention { offset, fp8, auxiliary_keys, keys, values, .. } => offset
                == token_len && fp8 && auxiliary_keys is Some && keys is Some && values is Some,
            LayerState::Linear {
                offset,
                conv_state,
                state_cache,
                ple_conv_state,
                ple_token_history,
            } => offset == token_len && conv_state is Some && state_cache is Some && (!kind.has_ple
                || (ple_conv_state is Some && ple_token_history.len() > 0)),
        },
{
}

/// Keys and values may share pages with any earlier snapshot, block keys only with a shorter one.
pub proof fn pages_are_shared_with_earlier_snapshots(
    index: nat,
    layer: LiveLayerView,
    has_previous: bool,
    previous_is_shorter: bool,
    i: int,
)
    requires
        0 <= i < layer_paged(index, layer, has_previous, previous_is_shorter).len(),
    ensures
        ({
            let entry = layer_paged(index, layer, has_previous, previous_is_shorter)[i];
            &&& layer is Attention
            &&& entry.name == layer_name(index, LayerPart::Keys) && entry.tensor
                == layer->Attention_keys->0 && entry.reuse_previous == has_previous || entry.name
                == layer_name(index, LayerPart::Values) && entry.tensor
                == layer->Attention_values->0 && entry.reuse_previous == has_previous || entry.name
                == layer_name(index, LayerPart::BlockKeys) && layer->Attention_block_keys == Some(
                entry.tensor,
            ) && entry.reuse_previous == previous_is_shorter
        }),
{
}

/// Nothing of a saved layer is lost: every layer that comes back has the very offsets, tensors and
/// tokens of the live one. A missing block size comes back as zero, and n-gram state only where the
/// layer embeds n-grams.
pub proof fn nothing_of_a_layer_is_lost(
    kinds: Seq<LayerKind>,
    layers: Seq<LiveLayerView>,
    rope: RopeState,
    token_len: nat,
    has_previous: bool,
    previous_is_shorter: bool,
    i: int,
)
    requires
        kinds.len() <= i32::MAX,
        token_len <= i32::MAX,
        all_saveable(kinds, layers, token_len as int),
        forall|j: int|
            0 <= j < kinds.len() ==> well_shaped(
                kinds[j],
                #[trigger] layers[j],
                token_len as int,
            ),
        rope.position == token_len,
        rope.active.rope_deltas != Some(i32::MIN),
        0 <= i < kinds.len(),
    ensures
        ({
            let restored = restored_sequence(
                saved_snapshot(kinds, layers, rope, token_len, has_previous, previous_is_shorter),
                kinds,
            );
            &&& restored is Ok
            &&& restored->Ok_0.layers.len() == layers.len()
            &&& restored->Ok_0.token_len == token_len
            &&& restored->Ok_0.rope_delta == rope.active.rope_deltas
            &&& restored->Ok_0.position_ids is Some == rope.active.position_ids is Some
            &&& restored->Ok_0.position_ids is Some
                ==> restored->Ok_0.position_ids->0.handle == rope.active.position_ids
            &&& match (layers[i], restored->Ok_0.layers[i]) {
                (LayerState::Attention { .. }, RestoredLayer::Attention { .. }) => {
                    let live = layers[i];
                    let back = restored->Ok_0.layers[i];
                    &&& back->Attention_offset == live->Attention_offset
                    &&& Some(back->Attention_keys) == live->Attention_keys
                    &&& Some(back->Attention_values) == live->Attention_values
                    &&& Some(back->Attention_auxiliary_keys) == live->Attention_auxiliary_keys
                    &&& back->Attention_tail_start == live->Attention_tail_start
                    &&& back->Attention_tail_end == live->Attention_tail_end
                    &&& back->Attention_rollback_horizon == live->Attention_rollback_horizon
                    &&& live->Attention_block_size is Some ==> back->Attention_block_size
                        == live->Attention_block_size->0
                    &&& live->Attention_block_size is None ==> back->Attention_block_size == 0
                    &&& back->Attention_block_keys == live->Attention_block_keys
                },
                (LayerState::Linear { .. }, RestoredLayer::Linear { .. }) => {
                    let live = layers[i];
                    let back = restored->Ok_0.layers[i];
                    &&& back->Linear_offset == live->Linear_offset
                    &&& Some(back->Linear_conv_state) == live->Linear_conv_state
                    &&& Some(back->Linear_state_cache) == live->Linear_state_cache
                    &&& kinds[i].has_ple ==> back->Linear_ple_conv_state
                        == live->Linear_ple_conv_state && back->Linear_ple_token_history
                        == live->Linear_ple_token_history
                    &&& !kinds[i].has_ple ==> back->Linear_ple_conv_state is None
                        && back->Linear_ple_token_history.len() == 0
                },
                _ => false,
            }
        }),
{
    saved_state_comes_back(
        kinds,
        layers,
        rope,
        token_len,
        has_previous,
        previous_is_shorter,
    );
    assert(saveable(kinds[i], layers[i], token_len as int));
}

/// Attention state comes back only in the layout of a cache that holds the tokens: keys and values of
/// the same four dimensions, for one sequence and at least as many tokens. Pages that can be joined
/// come before what was saved whole.
pub proof fn restored_attention_fits(snapshot: SnapshotView, index: usize, token_len: i32)
    ensures
        restored_attention(snapshot, index, token_len) matches Ok(layer) ==> {
            let keys = layer->Attention_keys;
            let values = layer->Attention_values;
            &&& layer is Attention
            &&& layer->Attention_offset == token_len
            &&& keys.shape.len() == 4
            &&& values.shape == keys.shape
            &&& keys.shape[0] == 1
            &&& keys.shape[2] >= token_len
        },
{
}

/// What was saved in pages comes before what was saved whole, if the pages can be joined.
pub proof fn pages_come_first(snapshot: SnapshotView, name: Seq<char>)
    ensures
        named(snapshot.paged, name) matches Some(pages) ==> (pages is Some ==> saved_pages(
            snapshot,
            name,
        ) == pages),
        named(snapshot.paged, name) is None || named(snapshot.paged, name)->0 is None
            ==> saved_pages(snapshot, name) == named(snapshot.dense, name),
{
}

/// Recurrent state comes back only with tensors of its ranks, and with n-gram state exactly where the
/// layer embeds n-grams.
pub proof fn restored_recurrence_fits(
    snapshot: SnapshotView,
    index: usize,
    kind: LayerKind,
    token_len: i32,
)
    ensures
        restored_linear(snapshot, index, kind, token_len) matches Ok(layer) ==> {
            &&& layer is Linear
            &&& layer->Linear_offset == token_len
            &&& layer->Linear_conv_state.shape.len() == 3
            &&& layer->Linear_state_cache.shape.len() == 4
            &&& layer->Linear_ple_conv_state is Some == kind.has_ple
            &&& kind.has_ple ==> layer->Linear_ple_conv_state->0.shape.len() == 3
        },
{
}

/// A snapshot is opened exactly if it is of this family, its length and layer count fit, every name
/// in it is known and stands once, and every attention layer has its tensors.
pub proof fn opened_snapshots_belong_to_the_model(snapshot: SnapshotView, kinds: Seq<LayerKind>)
    requires
        kinds.len() <= i32::MAX,
    ensures
        opened(snapshot, kinds) is Ok <==> {
            &&& snapshot.family == "qwen4-target"@
            &&& snapshot.token_len <= 0x7fff_ffff
            &&& saved_integer(snapshot, "meta.layer_count"@) == Ok::<i32, RestoreErrorView>(
                kinds.len() as i32,
            )
            &&& names_match(snapshot, kinds)
            &&& forall|i: nat|
                i < kinds.len() && !kinds[i as int].is_linear ==> {
                    &&& has_name(snapshot.dense, #[trigger] layer_name(i, LayerPart::AuxiliaryKeys))
                    &&& has_name(snapshot.dense, layer_name(i, LayerPart::Keys)) || has_name(
                        snapshot.paged,
                        layer_name(i, LayerPart::Keys),
                    )
                    &&& has_name(snapshot.dense, layer_name(i, LayerPart::Values)) || has_name(
                        snapshot.paged,
                        layer_name(i, LayerPart::Values),
                    )
                }
        },
        opened(snapshot, kinds) matches Ok(token_len) ==> token_len == snapshot.token_len,
{
    if opened(snapshot, kinds) is Ok {
        assert forall|i: nat|
            i < kinds.len() && !kinds[i as int].is_linear implies has_name(
                snapshot.dense,
                #[trigger] layer_name(i, LayerPart::AuxiliaryKeys),
            ) && (has_name(snapshot.dense, layer_name(i, LayerPart::Keys)) || has_name(
                snapshot.paged,
                layer_name(i, LayerPart::Keys),
            )) && (has_name(snapshot.dense, layer_name(i, LayerPart::Values)) || has_name(
                snapshot.paged,
                layer_name(i, LayerPart::Values),
            )) by {
            assert(attention_saved(snapshot, i));
        }
    }
    if forall|i: nat|
        i < kinds.len() && !kinds[i as int].is_linear ==> {
            &&& has_name(snapshot.dense, #[trigger] layer_name(i, LayerPart::AuxiliaryKeys))
            &&& has_name(snapshot.dense, layer_name(i, LayerPart::Keys)) || has_name(
                snapshot.paged,
                layer_name(i, LayerPart::Keys),
            )
            &&& has_name(snapshot.dense, layer_name(i, LayerPart::Values)) || has_name(
                snapshot.paged,
                layer_name(i, LayerPart::Values),
            )
        } {
        assert forall|index: nat|
            index < kinds.len() && !kinds[index as int].is_linear implies #[trigger] attention_saved(
            snapshot,
            index,
        ) by {
            assert(has_name(snapshot.dense, layer_name(index, LayerPart::AuxiliaryKeys)));
        }
    }
}

/// A name in a snapshot is known exactly if it is one of the header or of a part that a layer of its
/// kind has: states of the recurrence for recurrent layers, those of n-grams where they are embedded,
/// and everything of the attention cache for the others.
pub proof fn layers_have_the_parts_of_their_kind(kind: LayerKind)
    ensures
        part_allowed(kind, LayerPart::Kind),
        part_allowed(kind, LayerPart::Offset),
        part_allowed(kind, LayerPart::ConvState) == kind.is_linear,
        part_allowed(kind, LayerPart::StateCache) == kind.is_linear,
        part_allowed(kind, LayerPart::PleConvState) == (kind.is_linear && kind.has_ple),
        part_allowed(kind, LayerPart::PleTokenHistory) == (kind.is_linear && kind.has_ple),
        part_allowed(kind, LayerPart::AuxiliaryKeys) == !kind.is_linear,
        part_allowed(kind, LayerPart::TailStart) == !kind.is_linear,
        part_allowed(kind, LayerPart::TailEnd) == !kind.is_linear,
        part_allowed(kind, LayerPart::RollbackHorizon) == !kind.is_linear,
        part_allowed(kind, LayerPart::BlockSize) == !kind.is_linear,
        part_allowed(kind, LayerPart::BlockKeys) == !kind.is_linear,
        part_allowed(kind, LayerPart::Keys) == !kind.is_linear,
        part_allowed(kind, LayerPart::Values) == !kind.is_linear,
{
}

/// Where the tensors of a layer are loaded from.
pub proof fn layers_are_loaded_from(
    layer: Qwen4DecoderLayer,
    config: Qwen4Config,
    prefix: Seq<char>,
    kind: LayerKind,
    quantized: bool,
)
    requires
        layer.is(&config, prefix, kind, quantized),
    ensures
        kind.is_linear ==> layer.attention@ == prefix + "."@ + "linear_attn"@,
        !kind.is_linear ==> layer.attention@ == prefix + "."@ + "self_attn"@,
        layer.ple is Some == kind.has_ple,
        layer.ple matches Some(ple) ==> ple@ == prefix + "."@ + "ple"@,
        layer.mlp.gate.prefix@ == prefix + "."@ + "mlp"@ + "."@ + "gate"@,
        layer.mlp.shared_expert@ == prefix + "."@ + "mlp"@ + "."@ + "shared_expert"@,
        layer.mlp.shared_expert_gate.prefix@ == prefix + "."@ + "mlp"@ + "."@
            + "shared_expert_gate"@,
        layer.attn_hyper_connection.norm@ == prefix + "."@ + "attn_hyper_connection"@ + "."@
            + "hc_norm.weight"@,
        layer.attn_hyper_connection.input_mix_weight_down.prefix@ == prefix + "."@
            + "attn_hyper_connection"@ + "."@ + "input_mix_weight_down"@,
        layer.attn_hyper_connection.input_mix_weight_up.prefix@ == prefix + "."@
            + "attn_hyper_connection"@ + "."@ + "input_mix_weight_up"@,
        layer.attn_hyper_connection.block_inject_weight matches Some(load) && load.prefix@ == prefix
            + "."@ + "attn_hyper_connection"@ + "."@ + "block_inject_weight"@,
        layer.mlp_hyper_connection.norm@ == prefix + "."@ + "mlp_hyper_connection"@ + "."@
            + "hc_norm.weight"@,
        layer.mlp_hyper_connection.input_mix_weight_down.prefix@ == prefix + "."@
            + "mlp_hyper_connection"@ + "."@ + "input_mix_weight_down"@,
        layer.mlp_hyper_connection.input_mix_weight_up.prefix@ == prefix + "."@
            + "mlp_hyper_connection"@ + "."@ + "input_mix_weight_up"@,
        layer.mlp_hyper_connection.block_inject_weight matches Some(load) && load.prefix@ == prefix
            + "."@ + "mlp_hyper_connection"@ + "."@ + "block_inject_weight"@,
        layer.mlp.num_experts == config.num_experts,
        layer.mlp.top_k == config.num_experts_per_tok,
        match layer.mlp.experts {
            ExpertLoad::Quantized { gate_proj, up_proj, down_proj } => quantized && gate_proj.prefix@
                == prefix + "."@ + "mlp"@ + "."@ + "switch_mlp"@ + "."@ + "gate_proj"@
                && up_proj.prefix@ == prefix + "."@ + "mlp"@ + "."@ + "switch_mlp"@ + "."@
                + "up_proj"@ && down_proj.prefix@ == prefix + "."@ + "mlp"@ + "."@ + "switch_mlp"@
                + "."@ + "down_proj"@,
            ExpertLoad::Regular { .. } => !quantized,
        },
{
}

/// The compact heads: the drafting one holds two to the power of sixteen tokens, the verifying one
/// seventy-nine blocks of a thousand and twenty-four, each with the twenty-six control tokens and
/// padded to a multiple of thirty-two rows. Recurrent layers take a hundred and twenty-eight tokens at
/// a time.
pub proof fn head_sizes_are_fixed()
    ensures
        MTP_DRAFT_PREFIX == 0x1_0000,
        MTP_VERIFY_PREFIX == 79 * 1024,
        DRAFT_CONTROL_START == 248_044,
        DRAFT_CONTROL_END - DRAFT_CONTROL_START == 26,
        MTP_DRAFT_PADDED - MTP_DRAFT_PREFIX == 32,
        MTP_VERIFY_PADDED - MTP_VERIFY_PREFIX == 32,
        MTP_DRAFT_PADDED % 32 == 0,
        MTP_VERIFY_PADDED % 32 == 0,
        COMPACT_VOCABULARY == 248_320,
        QWEN4_PREFILL_MICROCHUNK_TOKENS == 128,
{
}

} // verus!
