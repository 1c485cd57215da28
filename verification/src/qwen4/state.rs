//! Saving the state of a sequence.

use vstd::prelude::*;
use crate::qwen4::state_names::{layer_name, layer_part_name, LayerKind, LayerPart};
use crate::qwen_rope_state::RopeState;

verus! {

/// A saved tensor. `D` is a list of integers.
#[derive(Debug)]
pub struct Tensor<D> {
    /// What the caller knows the tensor by. A tensor without handle is made from its contents.
    pub handle: Option<u64>,
    pub shape: D,
    /// The elements of a tensor that has a single element or a single dimension.
    pub contents: D,
}

pub type StateTensor = Tensor<Vec<i32>>;

pub type TensorView = Tensor<Seq<i32>>;

impl View for Tensor<Vec<i32>> {
    type V = Tensor<Seq<i32>>;

    open spec fn view(&self) -> Tensor<Seq<i32>> {
        Tensor { handle: self.handle, shape: self.shape@, contents: self.contents@ }
    }
}

/// A tensor of a single integer.
pub open spec fn scalar(value: i32) -> TensorView {
    Tensor { handle: None, shape: seq![1i32], contents: seq![value] }
}

/// A tensor that lists tokens.
pub open spec fn token_list(tokens: Seq<i32>) -> TensorView {
    Tensor { handle: None, shape: seq![tokens.len() as i32], contents: tokens }
}

fn scalar_tensor(value: i32) -> (tensor: StateTensor)
    ensures
        tensor@ == scalar(value),
{
    let tensor: StateTensor = Tensor { handle: None, shape: vec![1], contents: vec![value] };
    assert(tensor@.shape == seq![1i32]);
    assert(tensor@.contents == seq![value]);
    tensor
}

pub(crate) fn copy_integers(values: &Vec<i32>) -> (copy: Vec<i32>)
    ensures
        copy@ == values@,
{
    let copy: Vec<i32> = values.clone();
    assert(copy@ == values@);
    copy
}

pub(crate) fn copy_tensor(tensor: &StateTensor) -> (copy: StateTensor)
    ensures
        copy@ == tensor@,
{
    Tensor {
        handle: tensor.handle,
        shape: copy_integers(&tensor.shape),
        contents: copy_integers(&tensor.contents),
    }
}

pub open spec fn optional_view(tensor: Option<StateTensor>) -> Option<TensorView> {
    match tensor {
        Some(tensor) => Some(tensor@),
        None => None,
    }
}

/// The live state of a layer. `T` is a tensor and `D` a list of integers.
#[derive(Debug)]
pub enum LayerState<T, D> {
    Attention {
        offset: i32,
        /// Whether the cache keeps eight-bit floating point numbers.
        fp8: bool,
        tail_start: i32,
        tail_end: i32,
        rollback_horizon: i32,
        block_size: Option<i32>,
        auxiliary_keys: Option<T>,
        block_keys: Option<T>,
        /// Keys and values of the cache.
        keys: Option<T>,
        values: Option<T>,
    },
    Linear {
        offset: i32,
        conv_state: Option<T>,
        state_cache: Option<T>,
        ple_conv_state: Option<T>,
        ple_token_history: D,
    },
}

pub type LiveLayer = LayerState<StateTensor, Vec<i32>>;

pub type LiveLayerView = LayerState<TensorView, Seq<i32>>;

impl View for LayerState<StateTensor, Vec<i32>> {
    type V = LayerState<TensorView, Seq<i32>>;

    open spec fn view(&self) -> LayerState<TensorView, Seq<i32>> {
        match *self {
            LayerState::Attention {
                offset,
                fp8,
                tail_start,
                tail_end,
                rollback_horizon,
                block_size,
                auxiliary_keys,
                block_keys,
                keys,
                values,
            } => LayerState::Attention {
                offset,
                fp8,
                tail_start,
                tail_end,
                rollback_horizon,
                block_size,
                auxiliary_keys: optional_view(auxiliary_keys),
                block_keys: optional_view(block_keys),
                keys: optional_view(keys),
                values: optional_view(values),
            },
            LayerState::Linear {
                offset,
                conv_state,
                state_cache,
                ple_conv_state,
                ple_token_history,
            } => LayerState::Linear {
                offset,
                conv_state: optional_view(conv_state),
                state_cache: optional_view(state_cache),
                ple_conv_state: optional_view(ple_conv_state),
                ple_token_history: ple_token_history@,
            },
        }
    }
}

pub open spec fn layer_views(layers: Seq<LiveLayer>) -> Seq<LiveLayerView> {
    layers.map_values(|layer: LiveLayer| layer@)
}

/// Whether a layer can be saved at `token_len` tokens: everything that it needs is there.
pub open spec fn saveable(kind: LayerKind, layer: LiveLayerView, token_len: int) -> bool {
    match layer {
        LayerState::Attention { offset, fp8, auxiliary_keys, keys, values, .. } => {
            &&& offset == token_len
            &&& auxiliary_keys is Some
            &&& fp8
            &&& keys is Some
            &&& values is Some
        },
        LayerState::Linear { offset, conv_state, state_cache, ple_conv_state, ple_token_history } => {
            &&& offset == token_len
            &&& conv_state is Some
            &&& state_cache is Some
            &&& kind.has_ple ==> ple_conv_state is Some && ple_token_history.len() > 0
        },
    }
}

/// The number that stands for the kind of a layer.
pub open spec fn kind_number(kind: LayerKind) -> i32 {
    if kind.is_linear {
        1
    } else {
        0
    }
}

/// Tensors that a layer saves whole.
pub open spec fn layer_dense(index: nat, kind: LayerKind, layer: LiveLayerView) -> Seq<
    (Seq<char>, TensorView),
> {
    match layer {
        LayerState::Attention {
            offset,
            tail_start,
            tail_end,
            rollback_horizon,
            block_size,
            auxiliary_keys,
            ..
        } => seq![
            (layer_name(index, LayerPart::Kind), scalar(kind_number(kind))),
            (layer_name(index, LayerPart::Offset), scalar(offset)),
            (layer_name(index, LayerPart::TailStart), scalar(tail_start)),
            (layer_name(index, LayerPart::TailEnd), scalar(tail_end)),
            (layer_name(index, LayerPart::RollbackHorizon), scalar(rollback_horizon)),
            (
                layer_name(index, LayerPart::BlockSize),
                scalar(
                    match block_size {
                        Some(size) => size,
                        None => 0,
                    },
                ),
            ),
            (layer_name(index, LayerPart::AuxiliaryKeys), auxiliary_keys->0),
        ],
        LayerState::Linear { offset, conv_state, state_cache, ple_conv_state, ple_token_history } => {
            let always = seq![
                (layer_name(index, LayerPart::Kind), scalar(kind_number(kind))),
                (layer_name(index, LayerPart::Offset), scalar(offset)),
                (layer_name(index, LayerPart::ConvState), conv_state->0),
                (layer_name(index, LayerPart::StateCache), state_cache->0),
            ];
            if kind.has_ple {
                always.push((layer_name(index, LayerPart::PleConvState), ple_conv_state->0)).push(
                    (layer_name(index, LayerPart::PleTokenHistory), token_list(ple_token_history)),
                )
            } else {
                always
            }
        },
    }
}

/// A tensor that is saved in pages, and whether pages of the previous snapshot may be shared.
pub struct PagedView {
    pub name: Seq<char>,
    pub tensor: TensorView,
    pub reuse_previous: bool,
}

/// A tensor that is saved in pages, and whether pages of the previous snapshot may be shared.
#[derive(Debug)]
pub struct PagedTensor {
    pub name: String,
    pub tensor: StateTensor,
    pub reuse_previous: bool,
}

impl View for PagedTensor {
    type V = PagedView;

    open spec fn view(&self) -> PagedView {
        PagedView { name: self.name@, tensor: self.tensor@, reuse_previous: self.reuse_previous }
    }
}

/// Tensors that a layer saves in pages. Block keys share pages only with a shorter snapshot.
pub open spec fn layer_paged(
    index: nat,
    layer: LiveLayerView,
    has_previous: bool,
    previous_is_shorter: bool,
) -> Seq<PagedView> {
    match layer {
        LayerState::Attention { block_keys, keys, values, .. } => {
            let blocks = match block_keys {
                Some(block_keys) => seq![
                    PagedView {
                        name: layer_name(index, LayerPart::BlockKeys),
                        tensor: block_keys,
                        reuse_previous: previous_is_shorter,
                    },
                ],
                None => Seq::empty(),
            };
            blocks + seq![
                PagedView {
                    name: layer_name(index, LayerPart::Keys),
                    tensor: keys->0,
                    reuse_previous: has_previous,
                },
                PagedView {
                    name: layer_name(index, LayerPart::Values),
                    tensor: values->0,
                    reuse_previous: has_previous,
                },
            ]
        },
        LayerState::Linear { .. } => Seq::empty(),
    }
}

/// Tensors that the first `count` layers save whole.
pub open spec fn layers_dense(kinds: Seq<LayerKind>, layers: Seq<LiveLayerView>, count: nat) -> Seq<
    (Seq<char>, TensorView),
>
    decreases count,
{
    if count == 0 {
        Seq::empty()
    } else {
        layers_dense(kinds, layers, (count - 1) as nat) + layer_dense(
            (count - 1) as nat,
            kinds[count - 1],
            layers[count - 1],
        )
    }
}

/// Tensors that the first `count` layers save in pages.
pub open spec fn layers_paged(
    layers: Seq<LiveLayerView>,
    count: nat,
    has_previous: bool,
    previous_is_shorter: bool,
) -> Seq<PagedView>
    decreases count,
{
    if count == 0 {
        Seq::empty()
    } else {
        layers_paged(layers, (count - 1) as nat, has_previous, previous_is_shorter) + layer_paged(
            (count - 1) as nat,
            layers[count - 1],
            has_previous,
            previous_is_shorter,
        )
    }
}

/// What is saved besides the layers. A missing delta is saved as the least integer.
pub open spec fn header_dense(layer_count: i32, rope: RopeState) -> Seq<(Seq<char>, TensorView)> {
    let always = seq![
        ("meta.layer_count"@, scalar(layer_count)),
        ("mrope.position"@, scalar(rope.position)),
        (
            "mrope.rope_delta"@,
            scalar(
                match rope.active.rope_deltas {
                    Some(delta) => delta,
                    None => i32::MIN,
                },
            ),
        ),
    ];
    match rope.active.position_ids {
        Some(handle) => always.push(("mrope.position_ids"@, positions_tensor(handle))),
        None => always,
    }
}

/// The tensor of explicit positions.
pub open spec fn positions_tensor(handle: u64) -> TensorView {
    Tensor { handle: Some(handle), shape: Seq::empty(), contents: Seq::empty() }
}

/// The family name of the snapshots of this model.
pub fn snapshot_family() -> (family: &'static str)
    ensures
        family@ == "qwen4-target"@,
{
    "qwen4-target"
}

/// A snapshot before its tensors are paged.
#[derive(Debug)]
pub struct SnapshotPlan {
    pub token_len: usize,
    pub dense: Vec<(String, StateTensor)>,
    pub paged: Vec<PagedTensor>,
}

pub open spec fn dense_views(entries: Seq<(String, StateTensor)>) -> Seq<(Seq<char>, TensorView)> {
    entries.map_values(|entry: (String, StateTensor)| (entry.0@, entry.1@))
}

pub open spec fn paged_views(entries: Seq<PagedTensor>) -> Seq<PagedView> {
    entries.map_values(|entry: PagedTensor| entry@)
}

/// Whether the state of all layers can be saved at `token_len` tokens.
pub open spec fn all_saveable(
    kinds: Seq<LayerKind>,
    layers: Seq<LiveLayerView>,
    token_len: int,
) -> bool {
    &&& layers.len() == kinds.len()
    &&& forall|i: int| 0 <= i < kinds.len() ==> saveable(kinds[i], #[trigger] layers[i], token_len)
}

fn push_dense(entries: &mut Vec<(String, StateTensor)>, name: String, tensor: StateTensor)
    ensures
        dense_views(final(entries)@) == dense_views(old(entries)@).push((name@, tensor@)),
{
    let ghost entry = (name@, tensor@);
    let ghost before = entries@;
    entries.push((name, tensor));
    assert(dense_views(entries@) == dense_views(before).push(entry));
}

fn push_paged(
    entries: &mut Vec<PagedTensor>,
    name: String,
    tensor: StateTensor,
    reuse_previous: bool,
)
    ensures
        paged_views(final(entries)@) == paged_views(old(entries)@).push(
            (PagedView { name: name@, tensor: tensor@, reuse_previous }),
        ),
{
    let ghost entry = PagedView { name: name@, tensor: tensor@, reuse_previous };
    let ghost before = entries@;
    entries.push(PagedTensor { name, tensor, reuse_previous });
    assert(paged_views(entries@) == paged_views(before).push(entry));
}

/// Saves one layer. Nothing is promised of the lists when it cannot be saved.
fn save_layer(
    index: usize,
    kind: LayerKind,
    layer: &LiveLayer,
    token_len: i32,
    has_previous: bool,
    previous_is_shorter: bool,
    dense: &mut Vec<(String, StateTensor)>,
    paged: &mut Vec<PagedTensor>,
) -> (saved: bool)
    ensures
        saved == saveable(kind, layer@, token_len as int),
        saved ==> dense_views(final(dense)@) == dense_views(old(dense)@) + layer_dense(
            index as nat,
            kind,
            layer@,
        ),
        saved ==> paged_views(final(paged)@) == paged_views(old(paged)@) + layer_paged(
            index as nat,
            layer@,
            has_previous,
            previous_is_shorter,
        ),
{
    let ghost old_dense = dense_views(dense@);
    let ghost old_paged = paged_views(paged@);
    let number: i32 = if kind.is_linear {
        1
    } else {
        0
    };
    match layer {
        LayerState::Attention {
            offset,
            fp8,
            tail_start,
            tail_end,
            rollback_horizon,
            block_size,
            auxiliary_keys,
            block_keys,
            keys,
            values,
        } => {
            if *offset != token_len || !*fp8 {
                return false;
            }
            let auxiliary_keys: &StateTensor = match auxiliary_keys {
                Some(tensor) => tensor,
                None => {
                    return false;
                },
            };
            let keys: &StateTensor = match keys {
                Some(tensor) => tensor,
                None => {
                    return false;
                },
            };
            let values: &StateTensor = match values {
                Some(tensor) => tensor,
                None => {
                    return false;
                },
            };
            let size: i32 = match block_size {
                Some(size) => *size,
                None => 0,
            };
            push_dense(dense, layer_part_name(index, LayerPart::Kind), scalar_tensor(number));
            push_dense(dense, layer_part_name(index, LayerPart::Offset), scalar_tensor(*offset));
            push_dense(
                dense,
                layer_part_name(index, LayerPart::TailStart),
                scalar_tensor(*tail_start),
            );
            push_dense(dense, layer_part_name(index, LayerPart::TailEnd), scalar_tensor(*tail_end));
            push_dense(
                dense,
                layer_part_name(index, LayerPart::RollbackHorizon),
                scalar_tensor(*rollback_horizon),
            );
            push_dense(dense, layer_part_name(index, LayerPart::BlockSize), scalar_tensor(size));
            push_dense(
                dense,
                layer_part_name(index, LayerPart::AuxiliaryKeys),
                copy_tensor(auxiliary_keys),
            );
            if let Some(block_keys) = block_keys {
                push_paged(
                    paged,
                    layer_part_name(index, LayerPart::BlockKeys),
                    copy_tensor(block_keys),
                    previous_is_shorter,
                );
            }
            push_paged(
                paged,
                layer_part_name(index, LayerPart::Keys),
                copy_tensor(keys),
                has_previous,
            );
            push_paged(
                paged,
                layer_part_name(index, LayerPart::Values),
                copy_tensor(values),
                has_previous,
            );
            proof {
                assert(dense_views(dense@) == old_dense + layer_dense(index as nat, kind, layer@));
                assert(paged_views(paged@) == old_paged + layer_paged(
                    index as nat,
                    layer@,
                    has_previous,
                    previous_is_shorter,
                ));
            }
            true
        },
        LayerState::Linear { offset, conv_state, state_cache, ple_conv_state, ple_token_history } => {
            if *offset != token_len {
                return false;
            }
            let conv_state: &StateTensor = match conv_state {
                Some(tensor) => tensor,
                None => {
                    return false;
                },
            };
            let state_cache: &StateTensor = match state_cache {
                Some(tensor) => tensor,
                None => {
                    return false;
                },
            };
            push_dense(dense, layer_part_name(index, LayerPart::Kind), scalar_tensor(number));
            push_dense(dense, layer_part_name(index, LayerPart::Offset), scalar_tensor(*offset));
            push_dense(
                dense,
                layer_part_name(index, LayerPart::ConvState),
                copy_tensor(conv_state),
            );
            push_dense(
                dense,
                layer_part_name(index, LayerPart::StateCache),
                copy_tensor(state_cache),
            );
            if kind.has_ple {
                let ple_conv_state: &StateTensor = match ple_conv_state {
                    Some(tensor) => tensor,
                    None => {
                        return false;
                    },
                };
                if ple_token_history.len() == 0 {
                    return false;
                }
                push_dense(
                    dense,
                    layer_part_name(index, LayerPart::PleConvState),
                    copy_tensor(ple_conv_state),
                );
                let length: i32 = #[verifier::truncate]
                (ple_token_history.len() as i32);
                let history: StateTensor = Tensor {
                    handle: None,
                    shape: vec![length],
                    contents: copy_integers(ple_token_history),
                };
                assert(history@.shape == seq![length]);
                assert(history@ == token_list(ple_token_history@));
                push_dense(dense, layer_part_name(index, LayerPart::PleTokenHistory), history);
            }
            proof {
                assert(dense_views(dense@) == old_dense + layer_dense(index as nat, kind, layer@));
                assert(paged_views(paged@) == old_paged + layer_paged(
                    index as nat,
                    layer@,
                    has_previous,
                    previous_is_shorter,
                ));
            }
            true
        },
    }
}

/// Saves the state of the sequence at `token_len` tokens, if every layer stands there and has all
/// of its state. `previous_len` is the length of the snapshot to build on, if there is one.
pub fn snapshot_sequence_state(
    kinds: &Vec<LayerKind>,
    layers: &Vec<LiveLayer>,
    rope: &RopeState,
    token_len: usize,
    previous_len: Option<usize>,
) -> (result: Option<SnapshotPlan>)
    ensures
        result is Some <==> token_len <= i32::MAX && kinds@.len() <= i32::MAX && all_saveable(
            kinds@,
            layer_views(layers@),
            token_len as int,
        ),
        match result {
            Some(plan) => {
                &&& plan.token_len == token_len
                &&& dense_views(plan.dense@) == header_dense(kinds@.len() as i32, *rope)
                    + layers_dense(kinds@, layer_views(layers@), kinds@.len())
                &&& paged_views(plan.paged@) == layers_paged(
                    layer_views(layers@),
                    kinds@.len(),
                    previous_len is Some,
                    previous_len is Some && previous_len->0 < token_len,
                )
            },
            None => true,
        },
{
    let count: usize = kinds.len();
    if token_len > i32::MAX as usize || count > i32::MAX as usize || layers.len() != count {
        return None;
    }
    let has_previous: bool = previous_len.is_some();
    let previous_is_shorter: bool = match previous_len {
        Some(length) => length < token_len,
        None => false,
    };
    let delta: i32 = match rope.active.rope_deltas {
        Some(delta) => delta,
        None => i32::MIN,
    };
    let mut dense: Vec<(String, StateTensor)> = Vec::new();
    let mut paged: Vec<PagedTensor> = Vec::new();
    push_dense(&mut dense, "meta.layer_count".to_owned(), scalar_tensor(count as i32));
    push_dense(&mut dense, "mrope.position".to_owned(), scalar_tensor(rope.position));
    push_dense(&mut dense, "mrope.rope_delta".to_owned(), scalar_tensor(delta));
    if let Some(handle) = rope.active.position_ids {
        let positions: StateTensor = Tensor {
            handle: Some(handle),
            shape: Vec::new(),
            contents: Vec::new(),
        };
        assert(positions@.shape == Seq::<i32>::empty());
        assert(positions@.contents == Seq::<i32>::empty());
        push_dense(&mut dense, "mrope.position_ids".to_owned(), positions);
    }
    let ghost header = header_dense(kinds@.len() as i32, *rope);
    proof {
        assert(dense_views(dense@) == header);
        assert(paged_views(paged@) == Seq::<PagedView>::empty());
        assert(header + layers_dense(kinds@, layer_views(layers@), 0) == header);
    }
    let mut index: usize = 0;
    while index < count
        invariant
            index <= count,
            count == kinds@.len() == layers@.len(),
            count <= i32::MAX,
            token_len <= i32::MAX,
            header == header_dense(kinds@.len() as i32, *rope),
            has_previous == (previous_len is Some),
            previous_is_shorter == (previous_len is Some && previous_len->0 < token_len),
            dense_views(dense@) == header + layers_dense(
                kinds@,
                layer_views(layers@),
                index as nat,
            ),
            paged_views(paged@) == layers_paged(
                layer_views(layers@),
                index as nat,
                has_previous,
                previous_is_shorter,
            ),
            forall|i: int|
                0 <= i < index ==> saveable(
                    kinds@[i],
                    #[trigger] layer_views(layers@)[i],
                    token_len as int,
                ),
        decreases count - index,
    {
        let saved: bool = save_layer(
            index,
            kinds[index],
            &layers[index],
            token_len as i32,
            has_previous,
            previous_is_shorter,
            &mut dense,
            &mut paged,
        );
        assert(layer_views(layers@)[index as int] == layers@[index as int]@);
        if !saved {
            return None;
        }
        proof {
            let views = layer_views(layers@);
            let next = layer_dense(index as nat, kinds@[index as int], views[index as int]);
            assert(header + layers_dense(kinds@, views, index as nat) + next == header + (
            layers_dense(kinds@, views, index as nat) + next));
        }
        index = index + 1;
    }
    Some(SnapshotPlan { token_len, dense, paged })
}

} // verus!
