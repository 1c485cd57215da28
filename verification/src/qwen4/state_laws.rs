//! What is saved comes back.

use vstd::prelude::*;
use crate::qwen4::restore::{
    all_attention_saved, attention_saved, cache_layout, expected_name, found_where_named, has_name,
    named, names_match, names_once, opened, restored_layer, restored_layers, restored_rope,
    restored_sequence, RestoreErrorView, RestoredLayer, RestoredView, SequenceView, SnapshotView,
};
use crate::qwen4::state::{
    all_saveable, header_dense, layer_dense, layer_paged, layers_dense, layers_paged,
    positions_tensor, saveable, LayerState, LiveLayerView, PagedView, TensorView,
};
use crate::qwen4::state_names::{
    allowed_in_layer, layer_name, layer_names_are_distinct, part_allowed, LayerKind, LayerPart,
};
use crate::qwen_rope_state::RopeState;

verus! {

/// Paged tensors once their pages are joined again.
pub open spec fn joined_pages(paged: Seq<PagedView>) -> Seq<(Seq<char>, Option<TensorView>)> {
    paged.map_values(|entry: PagedView| (entry.name, Some(entry.tensor)))
}

/// The snapshot that saving a sequence makes.
pub open spec fn saved_snapshot(
    kinds: Seq<LayerKind>,
    layers: Seq<LiveLayerView>,
    rope: RopeState,
    token_len: nat,
    has_previous: bool,
    previous_is_shorter: bool,
) -> SnapshotView {
    SnapshotView {
        family: "qwen4-target"@,
        token_len,
        dense: header_dense(kinds.len() as i32, rope) + layers_dense(kinds, layers, kinds.len()),
        paged: joined_pages(
            layers_paged(layers, kinds.len(), has_previous, previous_is_shorter),
        ),
    }
}

/// Whether a layer's live state has the form that the model gives it: the variant of its kind, and
/// tensors of the right rank.
pub open spec fn well_shaped(kind: LayerKind, layer: LiveLayerView, token_len: int) -> bool {
    match layer {
        LayerState::Attention { keys, values, .. } => !kind.is_linear && cache_layout(
            keys->0,
            values->0,
            token_len,
        ),
        LayerState::Linear { conv_state, state_cache, ple_conv_state, .. } => {
            &&& kind.is_linear
            &&& conv_state->0.shape.len() == 3
            &&& state_cache->0.shape.len() == 4
            &&& kind.has_ple ==> ple_conv_state->0.shape.len() == 3
        },
    }
}

/// What is to be put back of a layer.
pub open spec fn saved_part(kind: LayerKind, layer: LiveLayerView) -> RestoredView {
    match layer {
        LayerState::Attention {
            offset,
            tail_start,
            tail_end,
            rollback_horizon,
            block_size,
            auxiliary_keys,
            block_keys,
            keys,
            values,
            ..
        } => RestoredLayer::Attention {
            offset,
            keys: keys->0,
            values: values->0,
            auxiliary_keys: auxiliary_keys->0,
            tail_start,
            tail_end,
            rollback_horizon,
            block_size: match block_size {
                Some(size) => size,
                None => 0,
            },
            block_keys,
        },
        LayerState::Linear { offset, conv_state, state_cache, ple_conv_state, ple_token_history } =>
            RestoredLayer::Linear {
            offset,
            conv_state: conv_state->0,
            state_cache: state_cache->0,
            ple_conv_state: if kind.has_ple {
                ple_conv_state
            } else {
                None
            },
            ple_token_history: if kind.has_ple {
                ple_token_history
            } else {
                Seq::empty()
            },
        },
    }
}

/// Parts that a layer saves whole, in order.
spec fn dense_parts(kind: LayerKind, layer: LiveLayerView) -> Seq<LayerPart> {
    match layer {
        LayerState::Attention { .. } => seq![
            LayerPart::Kind,
            LayerPart::Offset,
            LayerPart::TailStart,
            LayerPart::TailEnd,
            LayerPart::RollbackHorizon,
            LayerPart::BlockSize,
            LayerPart::AuxiliaryKeys,
        ],
        LayerState::Linear { .. } => if kind.has_ple {
            seq![
                LayerPart::Kind,
                LayerPart::Offset,
                LayerPart::ConvState,
                LayerPart::StateCache,
                LayerPart::PleConvState,
                LayerPart::PleTokenHistory,
            ]
        } else {
            seq![
                LayerPart::Kind,
                LayerPart::Offset,
                LayerPart::ConvState,
                LayerPart::StateCache,
            ]
        },
    }
}

/// Parts that a layer saves in pages, in order.
spec fn paged_parts(layer: LiveLayerView) -> Seq<LayerPart> {
    match layer {
        LayerState::Attention { block_keys, .. } => if block_keys is Some {
            seq![LayerPart::BlockKeys, LayerPart::Keys, LayerPart::Values]
        } else {
            seq![LayerPart::Keys, LayerPart::Values]
        },
        LayerState::Linear { .. } => Seq::empty(),
    }
}

/// Whether entry `k` is the one for `parts[k]`, for every `k`.
spec fn named_by_parts<T>(index: nat, entries: Seq<(Seq<char>, T)>, parts: Seq<LayerPart>) -> bool {
    &&& entries.len() == parts.len()
    &&& forall|k: int| 0 <= k < parts.len() ==> #[trigger] entries[k].0 == layer_name(index, parts[k])
    &&& forall|a: int, b: int| 0 <= a < b < parts.len() ==> #[trigger] parts[a] != #[trigger] parts[b]
}

proof fn dense_is_named(index: nat, kind: LayerKind, layer: LiveLayerView)
    ensures
        named_by_parts(index, layer_dense(index, kind, layer), dense_parts(kind, layer)),
{
}

proof fn paged_is_named(index: nat, layer: LiveLayerView, has_previous: bool, shorter: bool)
    ensures
        named_by_parts(
            index,
            joined_pages(layer_paged(index, layer, has_previous, shorter)),
            paged_parts(layer),
        ),
{
    let entries = joined_pages(layer_paged(index, layer, has_previous, shorter));
    let parts = paged_parts(layer);
    assert(entries.len() == parts.len());
    assert forall|k: int| 0 <= k < parts.len() implies #[trigger] entries[k].0 == layer_name(
        index,
        parts[k],
    ) by {}
}

/// An entry of a list in which names stand once is found under its name.
proof fn entry_is_found<T>(entries: Seq<(Seq<char>, T)>, k: int)
    requires
        names_once(entries),
        0 <= k < entries.len(),
    ensures
        named(entries, entries[k].0) == Some(entries[k].1),
    decreases entries.len(),
{
    if k > 0 {
        let rest = entries.skip(1);
        assert(names_once(rest)) by {
            assert forall|i: int, j: int| 0 <= i < j < rest.len() implies #[trigger] rest[i].0
                != #[trigger] rest[j].0 by {
                assert(entries[i + 1].0 != entries[j + 1].0);
            }
        }
        assert(entries[0].0 != entries[k].0);
        assert(rest[k - 1] == entries[k]);
        entry_is_found(rest, k - 1);
    }
}

/// Lists in which names stand once can be joined where they share no name.
proof fn joined_names_stand_once<T>(left: Seq<(Seq<char>, T)>, right: Seq<(Seq<char>, T)>)
    requires
        names_once(left),
        names_once(right),
        forall|i: int, j: int|
            0 <= i < left.len() && 0 <= j < right.len() ==> #[trigger] left[i].0
                != #[trigger] right[j].0,
    ensures
        names_once(left + right),
{
    let both = left + right;
    assert forall|i: int, j: int| 0 <= i < j < both.len() implies #[trigger] both[i].0
        != #[trigger] both[j].0 by {
        if j < left.len() {
            assert(both[i] == left[i] && both[j] == left[j]);
        } else if i < left.len() {
            assert(both[i] == left[i] && both[j] == right[j - left.len()]);
        } else {
            assert(both[i] == right[i - left.len()] && both[j] == right[j - left.len()]);
        }
    }
}

proof fn parts_stand_once<T>(index: nat, entries: Seq<(Seq<char>, T)>, parts: Seq<LayerPart>)
    requires
        named_by_parts(index, entries, parts),
    ensures
        names_once(entries),
{
    assert forall|i: int, j: int| 0 <= i < j < entries.len() implies #[trigger] entries[i].0
        != #[trigger] entries[j].0 by {
        assert(entries[i].0 == layer_name(index, parts[i]));
        assert(entries[j].0 == layer_name(index, parts[j]));
        if entries[i].0 == entries[j].0 {
            layer_names_are_distinct(index, parts[i], index, parts[j]);
        }
    }
}

/// Whether a name is that of a part that one of the first `count` layers saves whole.
spec fn dense_name(
    kinds: Seq<LayerKind>,
    layers: Seq<LiveLayerView>,
    count: nat,
    name: Seq<char>,
) -> bool {
    exists|i: nat, k: int|
        i < count && 0 <= k < dense_parts(kinds[i as int], layers[i as int]).len() && name
            == #[trigger] layer_name(i, dense_parts(kinds[i as int], layers[i as int])[k])
}

/// Whether a name is that of a part that one of the first `count` layers saves in pages.
spec fn paged_name(layers: Seq<LiveLayerView>, count: nat, name: Seq<char>) -> bool {
    exists|i: nat, k: int|
        i < count && 0 <= k < paged_parts(layers[i as int]).len() && name == #[trigger] layer_name(
            i,
            paged_parts(layers[i as int])[k],
        )
}

/// Where the dense entries of the first `count` layers come from, and that they stand once.
proof fn dense_origin(kinds: Seq<LayerKind>, layers: Seq<LiveLayerView>, count: nat)
    requires
        count <= kinds.len(),
        kinds.len() == layers.len(),
    ensures
        names_once(layers_dense(kinds, layers, count)),
        forall|m: int|
            0 <= m < layers_dense(kinds, layers, count).len() ==> dense_name(
                kinds,
                layers,
                count,
                #[trigger] layers_dense(kinds, layers, count)[m].0,
            ),
        forall|i: nat, k: int|
            i < count && 0 <= k < layer_dense(i, kinds[i as int], layers[i as int]).len()
                ==> layers_dense(kinds, layers, count).contains(
                #[trigger] layer_dense(i, kinds[i as int], layers[i as int])[k],
            ),
    decreases count,
{
    if count > 0 {
        let last = (count - 1) as nat;
        let front = layers_dense(kinds, layers, last);
        let own = layer_dense(last, kinds[last as int], layers[last as int]);
        let parts = dense_parts(kinds[last as int], layers[last as int]);
        let all = layers_dense(kinds, layers, count);
        dense_origin(kinds, layers, last);
        dense_is_named(last, kinds[last as int], layers[last as int]);
        parts_stand_once(last, own, parts);
        assert forall|i: int, j: int| 0 <= i < front.len() && 0 <= j < own.len() implies
            #[trigger] front[i].0 != #[trigger] own[j].0 by {
            assert(own[j].0 == layer_name(last, parts[j]));
            let (other, k) = choose|other: nat, k: int|
                other < last && 0 <= k < dense_parts(
                    kinds[other as int],
                    layers[other as int],
                ).len() && front[i].0 == #[trigger] layer_name(
                    other,
                    dense_parts(kinds[other as int], layers[other as int])[k],
                );
            if front[i].0 == own[j].0 {
                layer_names_are_distinct(
                    other,
                    dense_parts(kinds[other as int], layers[other as int])[k],
                    last,
                    parts[j],
                );
            }
        }
        joined_names_stand_once(front, own);
        assert forall|m: int| 0 <= m < all.len() implies dense_name(
            kinds,
            layers,
            count,
            #[trigger] all[m].0,
        ) by {
            if m < front.len() {
                assert(all[m] == front[m]);
                let (i, k) = choose|i: nat, k: int|
                    i < last && 0 <= k < dense_parts(kinds[i as int], layers[i as int]).len()
                        && front[m].0 == #[trigger] layer_name(
                        i,
                        dense_parts(kinds[i as int], layers[i as int])[k],
                    );
                assert(all[m].0 == layer_name(
                    i,
                    dense_parts(kinds[i as int], layers[i as int])[k],
                ));
            } else {
                assert(all[m] == own[m - front.len()]);
                assert(own[m - front.len()].0 == layer_name(last, parts[m - front.len()]));
            }
        }
        assert forall|i: nat, k: int|
            i < count && 0 <= k < layer_dense(i, kinds[i as int], layers[i as int]).len() implies all.contains(
            #[trigger] layer_dense(i, kinds[i as int], layers[i as int])[k],
        ) by {
            let entry = layer_dense(i, kinds[i as int], layers[i as int])[k];
            if i < last {
                assert(front.contains(entry));
                let m = choose|m: int| 0 <= m < front.len() && front[m] == entry;
                assert(all[m] == entry);
            } else {
                assert(all[front.len() + k] == entry);
            }
        }
    }
}

/// Where the paged entries of the first `count` layers come from, and that they stand once.
proof fn paged_origin(
    layers: Seq<LiveLayerView>,
    count: nat,
    has_previous: bool,
    shorter: bool,
)
    requires
        count <= layers.len(),
    ensures
        names_once(joined_pages(layers_paged(layers, count, has_previous, shorter))),
        forall|m: int|
            0 <= m < joined_pages(layers_paged(layers, count, has_previous, shorter)).len()
                ==> paged_name(
                layers,
                count,
                #[trigger] joined_pages(layers_paged(layers, count, has_previous, shorter))[m].0,
            ),
        forall|i: nat, k: int|
            i < count && 0 <= k < joined_pages(
                layer_paged(i, layers[i as int], has_previous, shorter),
            ).len() ==> joined_pages(
                layers_paged(layers, count, has_previous, shorter),
            ).contains(
                #[trigger] joined_pages(
                    layer_paged(i, layers[i as int], has_previous, shorter),
                )[k],
            ),
    decreases count,
{
    let all = joined_pages(layers_paged(layers, count, has_previous, shorter));
    if count > 0 {
        let last = (count - 1) as nat;
        let front = joined_pages(layers_paged(layers, last, has_previous, shorter));
        let own = joined_pages(layer_paged(last, layers[last as int], has_previous, shorter));
        let parts = paged_parts(layers[last as int]);
        assert(all == front + own);
        paged_origin(layers, last, has_previous, shorter);
        paged_is_named(last, layers[last as int], has_previous, shorter);
        parts_stand_once(last, own, parts);
        assert forall|i: int, j: int| 0 <= i < front.len() && 0 <= j < own.len() implies
            #[trigger] front[i].0 != #[trigger] own[j].0 by {
            assert(own[j].0 == layer_name(last, parts[j]));
            let (other, k) = choose|other: nat, k: int|
                other < last && 0 <= k < paged_parts(layers[other as int]).len() && front[i].0
                    == #[trigger] layer_name(
                    other,
                    paged_parts(layers[other as int])[k],
                );
            if front[i].0 == own[j].0 {
                layer_names_are_distinct(
                    other,
                    paged_parts(layers[other as int])[k],
                    last,
                    parts[j],
                );
            }
        }
        joined_names_stand_once(front, own);
        assert forall|m: int| 0 <= m < all.len() implies paged_name(
            layers,
            count,
            #[trigger] all[m].0,
        ) by {
            if m < front.len() {
                assert(all[m] == front[m]);
                let (i, k) = choose|i: nat, k: int|
                    i < last && 0 <= k < paged_parts(layers[i as int]).len() && front[m].0
                        == #[trigger] layer_name(i, paged_parts(layers[i as int])[k]);
                assert(all[m].0 == layer_name(i, paged_parts(layers[i as int])[k]));
            } else {
                assert(all[m] == own[m - front.len()]);
                assert(own[m - front.len()].0 == layer_name(last, parts[m - front.len()]));
            }
        }
        assert forall|i: nat, k: int|
            i < count && 0 <= k < joined_pages(
                layer_paged(i, layers[i as int], has_previous, shorter),
            ).len() implies all.contains(
            #[trigger] joined_pages(layer_paged(i, layers[i as int], has_previous, shorter))[k],
        ) by {
            let entry = joined_pages(layer_paged(i, layers[i as int], has_previous, shorter))[k];
            if i < last {
                assert(front.contains(entry));
                let m = choose|m: int| 0 <= m < front.len() && front[m] == entry;
                assert(all[m] == entry);
            } else {
                assert(all[front.len() + k] == entry);
            }
        }
    }
}

/// The names of the header stand once, and none of them belongs to a layer.
proof fn header_is_apart(layer_count: i32, rope: RopeState)
    ensures
        names_once(header_dense(layer_count, rope)),
        forall|h: int, i: nat, part: LayerPart|
            0 <= h < header_dense(layer_count, rope).len() ==> #[trigger] header_dense(
                layer_count,
                rope,
            )[h].0 != #[trigger] layer_name(i, part),
        "mrope.position_ids"@ != "meta.layer_count"@,
        "mrope.position_ids"@ != "mrope.position"@,
        "mrope.position_ids"@ != "mrope.rope_delta"@,
        forall|i: nat, part: LayerPart| "mrope.position_ids"@ != #[trigger] layer_name(i, part),
{
    reveal_strlit("meta.layer_count");
    reveal_strlit("mrope.position");
    reveal_strlit("mrope.rope_delta");
    reveal_strlit("mrope.position_ids");
    reveal_strlit("layer.");
    assert("meta.layer_count"@.len() == 16);
    assert("mrope.position"@.len() == 14);
    assert("mrope.rope_delta"@.len() == 16);
    assert("mrope.position_ids"@.len() == 18);
    assert("meta.layer_count"@[1] == 'e');
    assert("mrope.rope_delta"@[1] == 'r');
    assert("meta.layer_count"@[0] == 'm');
    assert("mrope.position"@[0] == 'm');
    assert("mrope.rope_delta"@[0] == 'm');
    assert("mrope.position_ids"@[0] == 'm');
    assert forall|i: nat, part: LayerPart| (#[trigger] layer_name(i, part))[0] == 'l' by {
        assert("layer."@[0] == 'l');
        assert(layer_name(i, part)[0] == "layer."@[0]);
    }
    let header = header_dense(layer_count, rope);
    assert forall|h: int, i: nat, part: LayerPart| 0 <= h < header.len() implies
        #[trigger] header[h].0 != #[trigger] layer_name(i, part) by {
        assert(layer_name(i, part)[0] == 'l');
        assert(header[h].0[0] == 'm');
    }
    assert forall|i: nat, part: LayerPart| "mrope.position_ids"@ != #[trigger] layer_name(i, part) by {
        assert(layer_name(i, part)[0] == 'l');
    }
}

/// Everything in the dense part of a snapshot stands once, and the layers' entries are found.
proof fn saved_dense_is_found(kinds: Seq<LayerKind>, layers: Seq<LiveLayerView>, rope: RopeState)
    requires
        kinds.len() == layers.len(),
    ensures
        ({
            let header = header_dense(kinds.len() as i32, rope);
            let dense = header + layers_dense(kinds, layers, kinds.len());
            &&& names_once(dense)
            &&& forall|h: int|
                0 <= h < header.len() ==> named(dense, #[trigger] header[h].0) == Some(header[h].1)
            &&& forall|i: nat, k: int|
                i < kinds.len() && 0 <= k < layer_dense(
                    i,
                    kinds[i as int],
                    layers[i as int],
                ).len() ==> #[trigger] named_entry(
                    dense,
                    layer_dense(i, kinds[i as int], layers[i as int])[k],
                )
        }),
{
    let header = header_dense(kinds.len() as i32, rope);
    let body = layers_dense(kinds, layers, kinds.len());
    let dense = header + body;
    header_is_apart(kinds.len() as i32, rope);
    dense_origin(kinds, layers, kinds.len());
    assert forall|h: int, m: int| 0 <= h < header.len() && 0 <= m < body.len() implies
        #[trigger] header[h].0 != #[trigger] body[m].0 by {
        assert(dense_name(kinds, layers, kinds.len(), body[m].0));
    }
    joined_names_stand_once(header, body);
    assert forall|h: int| 0 <= h < header.len() implies named(dense, #[trigger] header[h].0)
        == Some(header[h].1) by {
        assert(dense[h] == header[h]);
        entry_is_found(dense, h);
    }
    assert forall|i: nat, k: int|
        i < kinds.len() && 0 <= k < layer_dense(i, kinds[i as int], layers[i as int]).len() implies
        #[trigger] named_entry(dense, layer_dense(i, kinds[i as int], layers[i as int])[k]) by {
        let entry = layer_dense(i, kinds[i as int], layers[i as int])[k];
        assert(body.contains(entry));
        let m = choose|m: int| 0 <= m < body.len() && body[m] == entry;
        assert(dense[header.len() + m] == entry);
        entry_is_found(dense, header.len() + m);
    }
}

/// Whether looking up an entry's name gives the entry.
spec fn named_entry<T>(entries: Seq<(Seq<char>, T)>, entry: (Seq<char>, T)) -> bool {
    named(entries, entry.0) == Some(entry.1)
}

/// The paged entries of the layers are found.
proof fn saved_pages_are_found(layers: Seq<LiveLayerView>, has_previous: bool, shorter: bool)
    ensures
        ({
            let paged = joined_pages(layers_paged(layers, layers.len(), has_previous, shorter));
            &&& names_once(paged)
            &&& forall|i: nat, k: int|
                i < layers.len() && 0 <= k < joined_pages(
                    layer_paged(i, layers[i as int], has_previous, shorter),
                ).len() ==> #[trigger] named_entry(
                    paged,
                    joined_pages(layer_paged(i, layers[i as int], has_previous, shorter))[k],
                )
        }),
{
    let paged = joined_pages(layers_paged(layers, layers.len(), has_previous, shorter));
    paged_origin(layers, layers.len(), has_previous, shorter);
    assert forall|i: nat, k: int|
        i < layers.len() && 0 <= k < joined_pages(
            layer_paged(i, layers[i as int], has_previous, shorter),
        ).len() implies #[trigger] named_entry(
        paged,
        joined_pages(layer_paged(i, layers[i as int], has_previous, shorter))[k],
    ) by {
        let entry = joined_pages(layer_paged(i, layers[i as int], has_previous, shorter))[k];
        assert(paged.contains(entry));
        let m = choose|m: int| 0 <= m < paged.len() && paged[m] == entry;
        entry_is_found(paged, m);
    }
}

/// One layer comes back.
proof fn layer_comes_back(
    kinds: Seq<LayerKind>,
    layers: Seq<LiveLayerView>,
    rope: RopeState,
    token_len: nat,
    has_previous: bool,
    shorter: bool,
    index: usize,
)
    requires
        kinds.len() == layers.len(),
        index < kinds.len(),
        token_len <= i32::MAX,
        all_saveable(kinds, layers, token_len as int),
        well_shaped(kinds[index as int], layers[index as int], token_len as int),
    ensures
        restored_layer(
            saved_snapshot(kinds, layers, rope, token_len, has_previous, shorter),
            index,
            kinds[index as int],
            token_len as i32,
        ) == Ok::<RestoredView, RestoreErrorView>(
            saved_part(kinds[index as int], layers[index as int]),
        ),
{
    let snapshot = saved_snapshot(kinds, layers, rope, token_len, has_previous, shorter);
    let kind = kinds[index as int];
    let layer = layers[index as int];
    let i = index as nat;
    let own = layer_dense(i, kind, layer);
    assert(saveable(kind, layer, token_len as int));
    saved_dense_is_found(kinds, layers, rope);
    saved_pages_are_found(layers, has_previous, shorter);
    assert(named_entry(snapshot.dense, own[0]));
    assert(named_entry(snapshot.dense, own[1]));
    assert(named_entry(snapshot.dense, own[2]));
    assert(named_entry(snapshot.dense, own[3]));
    match layer {
        LayerState::Attention { block_keys, .. } => {
            assert(named_entry(snapshot.dense, own[4]));
            assert(named_entry(snapshot.dense, own[5]));
            assert(named_entry(snapshot.dense, own[6]));
            let pages = joined_pages(layer_paged(i, layer, has_previous, shorter));
            let first: int = if block_keys is Some {
                1
            } else {
                0
            };
            assert(named_entry(snapshot.paged, pages[first]));
            assert(named_entry(snapshot.paged, pages[first + 1]));
            assert(pages[first].0 == layer_name(i, LayerPart::Keys));
            assert(pages[first + 1].0 == layer_name(i, LayerPart::Values));
            let block_name = layer_name(i, LayerPart::BlockKeys);
            if block_keys is Some {
                assert(named_entry(snapshot.paged, pages[0]));
                assert(pages[0].0 == block_name);
            } else {
                paged_origin(layers, layers.len(), has_previous, shorter);
                dense_origin(kinds, layers, kinds.len());
                header_is_apart(kinds.len() as i32, rope);
                let header = header_dense(kinds.len() as i32, rope);
                let body = layers_dense(kinds, layers, kinds.len());
                assert(!has_name(snapshot.paged, block_name)) by {
                    if has_name(snapshot.paged, block_name) {
                        let m = choose|m: int|
                            0 <= m < snapshot.paged.len() && #[trigger] snapshot.paged[m].0
                                == block_name;
                        assert(paged_name(layers, layers.len(), snapshot.paged[m].0));
                        let (other, k) = choose|other: nat, k: int|
                            other < layers.len() && 0 <= k < paged_parts(layers[other as int]).len()
                                && block_name == #[trigger] layer_name(
                                other,
                                paged_parts(layers[other as int])[k],
                            );
                        layer_names_are_distinct(
                            i,
                            LayerPart::BlockKeys,
                            other,
                            paged_parts(layers[other as int])[k],
                        );
                    }
                }
                assert(!has_name(snapshot.dense, block_name)) by {
                    if has_name(snapshot.dense, block_name) {
                        let m = choose|m: int|
                            0 <= m < snapshot.dense.len() && #[trigger] snapshot.dense[m].0
                                == block_name;
                        if m < header.len() {
                            assert(snapshot.dense[m] == header[m]);
                        } else {
                            assert(snapshot.dense[m] == body[m - header.len()]);
                            assert(dense_name(kinds, layers, kinds.len(), body[m - header.len()].0));
                            let (other, k) = choose|other: nat, k: int|
                                other < kinds.len() && 0 <= k < dense_parts(
                                    kinds[other as int],
                                    layers[other as int],
                                ).len() && block_name == #[trigger] layer_name(
                                    other,
                                    dense_parts(kinds[other as int], layers[other as int])[k],
                                );
                            layer_names_are_distinct(
                                i,
                                LayerPart::BlockKeys,
                                other,
                                dense_parts(kinds[other as int], layers[other as int])[k],
                            );
                        }
                    }
                }
                found_where_named(snapshot.paged, block_name);
                found_where_named(snapshot.dense, block_name);
            }
        },
        LayerState::Linear { .. } => {
            if kind.has_ple {
                assert(named_entry(snapshot.dense, own[4]));
                assert(named_entry(snapshot.dense, own[5]));
            }
        },
    }
}

/// All layers come back.
proof fn layers_come_back(
    kinds: Seq<LayerKind>,
    layers: Seq<LiveLayerView>,
    rope: RopeState,
    token_len: nat,
    has_previous: bool,
    shorter: bool,
    count: nat,
)
    requires
        kinds.len() == layers.len(),
        kinds.len() <= i32::MAX,
        count <= kinds.len(),
        token_len <= i32::MAX,
        all_saveable(kinds, layers, token_len as int),
        forall|i: int|
            0 <= i < kinds.len() ==> well_shaped(
                kinds[i],
                #[trigger] layers[i],
                token_len as int,
            ),
    ensures
        restored_layers(
            saved_snapshot(kinds, layers, rope, token_len, has_previous, shorter),
            kinds,
            token_len as i32,
            count,
        ) == Ok::<Seq<RestoredView>, RestoreErrorView>(
            Seq::new(count, |i: int| saved_part(kinds[i], layers[i])),
        ),
    decreases count,
{
    let parts = Seq::new(count, |i: int| saved_part(kinds[i], layers[i]));
    if count == 0 {
        assert(parts == Seq::<RestoredView>::empty());
    } else {
        let last = (count - 1) as nat;
        layers_come_back(kinds, layers, rope, token_len, has_previous, shorter, last);
        layer_comes_back(
            kinds,
            layers,
            rope,
            token_len,
            has_previous,
            shorter,
            last as usize,
        );
        let front = Seq::new(last, |i: int| saved_part(kinds[i], layers[i]));
        assert(front.push(saved_part(kinds[last as int], layers[last as int])) == parts);
    }
}

/// Parts that a well-shaped layer saves are parts that its kind may save.
proof fn saved_parts_are_allowed(kind: LayerKind, layer: LiveLayerView, token_len: int)
    requires
        well_shaped(kind, layer, token_len),
    ensures
        forall|k: int|
            0 <= k < dense_parts(kind, layer).len() ==> part_allowed(
                kind,
                #[trigger] dense_parts(kind, layer)[k],
            ),
        forall|k: int|
            0 <= k < paged_parts(layer).len() ==> part_allowed(
                kind,
                #[trigger] paged_parts(layer)[k],
            ),
{
}

/// A snapshot holds nothing that the model does not expect.
proof fn saved_names_match(
    kinds: Seq<LayerKind>,
    layers: Seq<LiveLayerView>,
    rope: RopeState,
    token_len: nat,
    has_previous: bool,
    shorter: bool,
)
    requires
        kinds.len() == layers.len(),
        all_saveable(kinds, layers, token_len as int),
        forall|i: int|
            0 <= i < kinds.len() ==> well_shaped(
                kinds[i],
                #[trigger] layers[i],
                token_len as int,
            ),
    ensures
        names_match(
            saved_snapshot(kinds, layers, rope, token_len, has_previous, shorter),
            kinds,
        ),
        all_attention_saved(
            saved_snapshot(kinds, layers, rope, token_len, has_previous, shorter),
            kinds,
        ),
{
    let snapshot = saved_snapshot(kinds, layers, rope, token_len, has_previous, shorter);
    let header = header_dense(kinds.len() as i32, rope);
    let body = layers_dense(kinds, layers, kinds.len());
    saved_dense_is_found(kinds, layers, rope);
    saved_pages_are_found(layers, has_previous, shorter);
    dense_origin(kinds, layers, kinds.len());
    paged_origin(layers, layers.len(), has_previous, shorter);
    assert forall|m: int| 0 <= m < snapshot.dense.len() implies expected_name(
        snapshot,
        kinds,
        #[trigger] snapshot.dense[m].0,
    ) by {
        let name = snapshot.dense[m].0;
        if m < header.len() {
            assert(snapshot.dense[m] == header[m]);
            assert(has_name(snapshot.dense, name));
        } else {
            assert(snapshot.dense[m] == body[m - header.len()]);
            assert(dense_name(kinds, layers, kinds.len(), body[m - header.len()].0));
            let (i, k) = choose|i: nat, k: int|
                i < kinds.len() && 0 <= k < dense_parts(kinds[i as int], layers[i as int]).len()
                    && name == #[trigger] layer_name(
                    i,
                    dense_parts(kinds[i as int], layers[i as int])[k],
                );
            saved_parts_are_allowed(kinds[i as int], layers[i as int], token_len as int);
            assert(part_allowed(
                kinds[i as int],
                dense_parts(kinds[i as int], layers[i as int])[k],
            ));
            assert(allowed_in_layer(i, kinds[i as int], name));
        }
    }
    assert forall|m: int| 0 <= m < snapshot.paged.len() implies expected_name(
        snapshot,
        kinds,
        #[trigger] snapshot.paged[m].0,
    ) by {
        let name = snapshot.paged[m].0;
        assert(paged_name(layers, layers.len(), name));
        let (i, k) = choose|i: nat, k: int|
            i < layers.len() && 0 <= k < paged_parts(layers[i as int]).len() && name
                == #[trigger] layer_name(i, paged_parts(layers[i as int])[k]);
        saved_parts_are_allowed(kinds[i as int], layers[i as int], token_len as int);
        assert(part_allowed(kinds[i as int], paged_parts(layers[i as int])[k]));
        assert(allowed_in_layer(i, kinds[i as int], name));
    }
    assert forall|i: nat|
        i < kinds.len() && !kinds[i as int].is_linear implies #[trigger] attention_saved(
        snapshot,
        i,
    ) by {
        let layer = layers[i as int];
        assert(well_shaped(kinds[i as int], layer, token_len as int));
        assert(saveable(kinds[i as int], layer, token_len as int));
        let own = layer_dense(i, kinds[i as int], layer);
        let pages = joined_pages(layer_paged(i, layer, has_previous, shorter));
        match layer {
            LayerState::Attention { block_keys, .. } => {
                let first: int = if block_keys is Some {
                    1
                } else {
                    0
                };
                assert(named_entry(snapshot.dense, own[6]));
                assert(named_entry(snapshot.paged, pages[first]));
                assert(named_entry(snapshot.paged, pages[first + 1]));
                assert(pages[first].0 == layer_name(i, LayerPart::Keys));
                assert(pages[first + 1].0 == layer_name(i, LayerPart::Values));
                found_where_named(snapshot.dense, layer_name(i, LayerPart::AuxiliaryKeys));
                found_where_named(snapshot.paged, layer_name(i, LayerPart::Keys));
                found_where_named(snapshot.paged, layer_name(i, LayerPart::Values));
            },
            LayerState::Linear { .. } => {},
        }
    }
}

/// What is saved comes back: restoring the snapshot of a sequence gives every layer the state that
/// it had, and decoding goes on from the same positions. A delta of the least integer is left out,
/// as it stands for none.
pub proof fn saved_state_comes_back(
    kinds: Seq<LayerKind>,
    layers: Seq<LiveLayerView>,
    rope: RopeState,
    token_len: nat,
    has_previous: bool,
    previous_is_shorter: bool,
)
    requires
        kinds.len() <= i32::MAX,
        token_len <= i32::MAX,
        all_saveable(kinds, layers, token_len as int),
        forall|i: int|
            0 <= i < kinds.len() ==> well_shaped(
                kinds[i],
                #[trigger] layers[i],
                token_len as int,
            ),
        rope.position == token_len,
        rope.active.rope_deltas != Some(i32::MIN),
    ensures
        restored_sequence(
            saved_snapshot(kinds, layers, rope, token_len, has_previous, previous_is_shorter),
            kinds,
        ) == Ok::<SequenceView, RestoreErrorView>(
            (SequenceView {
                token_len: token_len as i32,
                layers: Seq::new(kinds.len(), |i: int| saved_part(kinds[i], layers[i])),
                rope_delta: rope.active.rope_deltas,
                position_ids: match rope.active.position_ids {
                    Some(handle) => Some(positions_tensor(handle)),
                    None => None,
                },
            }),
        ),
{
    let snapshot = saved_snapshot(
        kinds,
        layers,
        rope,
        token_len,
        has_previous,
        previous_is_shorter,
    );
    let header = header_dense(kinds.len() as i32, rope);
    let body = layers_dense(kinds, layers, kinds.len());
    saved_dense_is_found(kinds, layers, rope);
    saved_names_match(kinds, layers, rope, token_len, has_previous, previous_is_shorter);
    layers_come_back(
        kinds,
        layers,
        rope,
        token_len,
        has_previous,
        previous_is_shorter,
        kinds.len(),
    );
    assert(header[0].0 == "meta.layer_count"@);
    assert(header[1].0 == "mrope.position"@);
    assert(header[2].0 == "mrope.rope_delta"@);
    header_is_apart(kinds.len() as i32, rope);
    if rope.active.position_ids is Some {
        assert(header[3].0 == "mrope.position_ids"@);
    } else {
        assert(!has_name(snapshot.dense, "mrope.position_ids"@)) by {
            if has_name(snapshot.dense, "mrope.position_ids"@) {
                let m = choose|m: int|
                    0 <= m < snapshot.dense.len() && #[trigger] snapshot.dense[m].0
                        == "mrope.position_ids"@;
                dense_origin(kinds, layers, kinds.len());
                if m < header.len() {
                    assert(snapshot.dense[m] == header[m]);
                } else {
                    assert(snapshot.dense[m] == body[m - header.len()]);
                    assert(dense_name(kinds, layers, kinds.len(), body[m - header.len()].0));
                }
            }
        }
        found_where_named(snapshot.dense, "mrope.position_ids"@);
    }
    assert(opened(snapshot, kinds) == Ok::<i32, RestoreErrorView>(token_len as i32));
    assert(restored_rope(snapshot, token_len as i32) is Ok);
}

} // verus!
