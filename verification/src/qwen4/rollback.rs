//! Taking back a verified block after some of its tokens were refused.

use vstd::prelude::*;
use crate::qwen4_attention::attention::Qwen4LayerCache;

verus! {

/// How far the caches go back.
#[derive(Debug, Clone, Copy, PartialEq, Eq, Structural)]
pub struct Qwen4RollbackPlan {
    /// Tokens of the block that stay.
    pub accepted_block_len: i32,
    /// Tokens that go.
    pub trim: i32,
    /// Tokens in the caches afterwards.
    pub final_offset: i32,
}

/// A count, or the largest machine integer for one that does not fit.
pub open spec fn clamped(count: nat) -> int {
    if count <= i32::MAX {
        count as int
    } else {
        i32::MAX as int
    }
}

/// Tokens that go when `retained` of a block stay.
pub open spec fn trimmed_tokens(retained: nat, block_size: nat) -> int {
    vstd::math::max(clamped(block_size) - clamped(retained), 0)
}

fn clamp(count: usize) -> (value: i32)
    ensures
        value == clamped(count as nat),
{
    if count > i32::MAX as usize {
        i32::MAX
    } else {
        count as i32
    }
}

/// Plans going back from `verify_offset` so that the first `retained_inputs` tokens of the block
/// stay.
pub fn rollback_plan_for_retained_inputs(
    verify_offset: i32,
    retained_inputs: usize,
    block_size: usize,
) -> (plan: Qwen4RollbackPlan)
    requires
        verify_offset - trimmed_tokens(retained_inputs as nat, block_size as nat) >= i32::MIN,
    ensures
        plan.accepted_block_len == clamped(retained_inputs as nat),
        plan.trim == trimmed_tokens(retained_inputs as nat, block_size as nat),
        plan.final_offset == verify_offset - plan.trim,
{
    let accepted_block_len: i32 = clamp(retained_inputs);
    let block: i32 = clamp(block_size);
    let trim: i32 = if block > accepted_block_len {
        block - accepted_block_len
    } else {
        0
    };
    Qwen4RollbackPlan { accepted_block_len, trim, final_offset: verify_offset - trim }
}

/// Plans going back so that the bonus token and the accepted drafts stay.
pub fn rollback_plan(verify_offset: i32, accepted: usize, block_size: usize) -> (plan:
    Qwen4RollbackPlan)
    requires
        verify_offset - trimmed_tokens(accepted as nat + 1, block_size as nat) >= i32::MIN,
    ensures
        plan.accepted_block_len == clamped(accepted as nat + 1),
        plan.trim == trimmed_tokens(accepted as nat + 1, block_size as nat),
        plan.final_offset == verify_offset - plan.trim,
{
    let retained: usize = accepted.saturating_add(1);
    proof {
        if accepted == usize::MAX {
            assert(clamped(accepted as nat + 1) == clamped(retained as nat));
        }
    }
    rollback_plan_for_retained_inputs(verify_offset, retained, block_size)
}

/// Going back from the end of a block leaves the prefix and the retained tokens; with nothing
/// retained it leaves the prefix.
pub proof fn rollback_keeps_prefix_and_retained(prefix: int, retained: nat, block_size: nat)
    requires
        0 <= prefix,
        retained <= block_size,
        prefix + block_size <= i32::MAX,
    ensures
        (prefix + block_size) - trimmed_tokens(retained, block_size) == prefix + retained,
{
}

/// What a layer is, as far as going back is concerned.
#[derive(Debug, Clone, Copy, PartialEq, Eq, Structural)]
pub struct LayerShape {
    pub is_linear: bool,
    /// Rows that the layer's convolution reads.
    pub conv_kernel_size: i32,
}

/// What was captured of a recurrent layer while a block was verified.
#[derive(Debug, Clone, Copy, PartialEq, Eq, Structural)]
pub struct GdnRollbackSnapshot {
    pub layer_idx: usize,
    /// Whether the layer carries n-gram state.
    pub has_ple: bool,
}

/// How a recurrent layer is brought back.
#[derive(Debug, Clone, Copy, PartialEq, Eq, Structural)]
pub struct GdnRestore {
    pub layer_idx: usize,
    /// Captured rows to run through the recurrence again from the captured start; with none the
    /// captured start is the state.
    pub replay_len: i32,
    /// Rows of the captured convolution input that become the convolution state, from here ...
    pub conv_start: i32,
    /// ... up to, excluding, here.
    pub conv_end: i32,
    pub offset: i32,
    /// Whether the captured n-gram state is put back.
    pub restore_ple: bool,
    /// Whether the retained tokens are looked up again afterwards.
    pub replay_ple: bool,
}

/// Whether a capture belongs to a recurrent layer with a recurrent cache.
pub open spec fn applies(
    snapshot: GdnRollbackSnapshot,
    caches: Seq<Qwen4LayerCache>,
    layers: Seq<LayerShape>,
) -> bool {
    snapshot.layer_idx < caches.len() && caches[snapshot.layer_idx as int] is Linear
        && layers[snapshot.layer_idx as int].is_linear
}

/// How the layer of a capture is brought back.
pub open spec fn restore_of(
    snapshot: GdnRollbackSnapshot,
    layers: Seq<LayerShape>,
    plan: Qwen4RollbackPlan,
) -> GdnRestore {
    GdnRestore {
        layer_idx: snapshot.layer_idx,
        replay_len: plan.accepted_block_len,
        conv_start: plan.accepted_block_len,
        conv_end: (plan.accepted_block_len + layers[snapshot.layer_idx as int].conv_kernel_size
            - 1) as i32,
        offset: plan.final_offset,
        restore_ple: snapshot.has_ple,
        replay_ple: snapshot.has_ple && plan.accepted_block_len > 0,
    }
}

/// A layer's cache after going back.
pub open spec fn rolled_back(
    caches: Seq<Qwen4LayerCache>,
    layers: Seq<LayerShape>,
    states: Seq<GdnRollbackSnapshot>,
    plan: Qwen4RollbackPlan,
    index: int,
) -> Qwen4LayerCache {
    match caches[index] {
        Qwen4LayerCache::Attention { offset } => Qwen4LayerCache::Attention {
            offset: (offset - plan.trim) as i32,
        },
        Qwen4LayerCache::Linear { offset } => if exists|i: int|
            0 <= i < states.len() && (#[trigger] states[i]).layer_idx == index && applies(
                states[i],
                caches,
                layers,
            ) {
            Qwen4LayerCache::Linear { offset: plan.final_offset }
        } else {
            Qwen4LayerCache::Linear { offset }
        },
    }
}

/// Tokens in the first layer's cache.
pub open spec fn first_offset(caches: Seq<Qwen4LayerCache>) -> int {
    if caches.len() == 0 {
        0
    } else {
        caches[0].spec_offset() as int
    }
}

/// Takes a verified block back until `retained_inputs` of its tokens are left: attention caches
/// are trimmed, captured recurrent layers get the work to do. Returns the plan and that work, in
/// the order of the captures.
pub fn rollback_mtp_verify_to_retained_inputs(
    caches: &mut Vec<Qwen4LayerCache>,
    layers: &[LayerShape],
    states: &[GdnRollbackSnapshot],
    retained_inputs: usize,
    block_size: usize,
) -> (result: (Qwen4RollbackPlan, Vec<GdnRestore>))
    requires
        old(caches)@.len() == layers@.len(),
        forall|i: int|
            0 <= i < old(caches)@.len() && (#[trigger] old(caches)@[i]) is Attention
                ==> old(caches)@[i].spec_offset() >= trimmed_tokens(
                retained_inputs as nat,
                block_size as nat,
            ),
        first_offset(old(caches)@) >= trimmed_tokens(retained_inputs as nat, block_size as nat),
        forall|i: int|
            0 <= i < layers@.len() ==> 1 <= (#[trigger] layers@[i]).conv_kernel_size && clamped(
                retained_inputs as nat,
            ) + layers@[i].conv_kernel_size <= i32::MAX,
    ensures
        ({
            let (plan, restores) = result;
            &&& plan.accepted_block_len == clamped(retained_inputs as nat)
            &&& plan.trim == trimmed_tokens(retained_inputs as nat, block_size as nat)
            &&& plan.final_offset == first_offset(old(caches)@) - plan.trim
            &&& final(caches)@.len() == old(caches)@.len()
            &&& forall|i: int|
                0 <= i < old(caches)@.len() ==> #[trigger] final(caches)@[i] == rolled_back(
                    old(caches)@,
                    layers@,
                    states@,
                    plan,
                    i,
                )
            &&& restores@ == states@.filter(
                |s: GdnRollbackSnapshot| applies(s, old(caches)@, layers@),
            ).map_values(|s: GdnRollbackSnapshot| restore_of(s, layers@, plan))
        }),
{
    let ghost before = caches@;
    let verify_offset: i32 = if caches.len() == 0 {
        0
    } else {
        caches[0].offset()
    };
    let plan = rollback_plan_for_retained_inputs(verify_offset, retained_inputs, block_size);
    let mut index: usize = 0;
    while index < caches.len()
        invariant
            index <= caches@.len() == before.len(),
            plan.trim == trimmed_tokens(retained_inputs as nat, block_size as nat),
            forall|i: int|
                0 <= i < before.len() && (#[trigger] before[i]) is Attention
                    ==> before[i].spec_offset() >= plan.trim,
            plan.trim >= 0,
            forall|i: int|
                0 <= i < index ==> #[trigger] caches@[i] == (match before[i] {
                    Qwen4LayerCache::Attention { offset } => Qwen4LayerCache::Attention {
                        offset: (offset - plan.trim) as i32,
                    },
                    linear => linear,
                }),
            forall|i: int| index <= i < before.len() ==> #[trigger] caches@[i] == before[i],
        decreases before.len() - index,
    {
        assert(caches@[index as int] == before[index as int]);
        if let Qwen4LayerCache::Attention { offset } = caches[index] {
            assert(before[index as int].spec_offset() >= plan.trim);
            caches.set(index, Qwen4LayerCache::Attention { offset: offset - plan.trim });
        }
        index = index + 1;
    }
    let ghost trimmed = caches@;
    let ghost keep = |s: GdnRollbackSnapshot| applies(s, before, layers@);
    let ghost work = |s: GdnRollbackSnapshot| restore_of(s, layers@, plan);
    let mut restores: Vec<GdnRestore> = Vec::new();
    let mut at: usize = 0;
    reveal(Seq::filter);
    assert(states@.take(0).filter(keep).map_values(work) =~= Seq::<GdnRestore>::empty());
    while at < states.len()
        invariant
            at <= states@.len(),
            before.len() == layers@.len() == caches@.len() == trimmed.len(),
            keep == (|s: GdnRollbackSnapshot| applies(s, before, layers@)),
            work == (|s: GdnRollbackSnapshot| restore_of(s, layers@, plan)),
            plan.accepted_block_len == clamped(retained_inputs as nat),
            forall|i: int|
                0 <= i < layers@.len() ==> 1 <= (#[trigger] layers@[i]).conv_kernel_size && clamped(
                    retained_inputs as nat,
                ) + layers@[i].conv_kernel_size <= i32::MAX,
            forall|i: int|
                0 <= i < before.len() ==> #[trigger] trimmed[i] == (match before[i] {
                    Qwen4LayerCache::Attention { offset } => Qwen4LayerCache::Attention {
                        offset: (offset - plan.trim) as i32,
                    },
                    linear => linear,
                }),
            forall|i: int|
                0 <= i < before.len() ==> #[trigger] caches@[i] == rolled_back(
                    before,
                    layers@,
                    states@.take(at as int),
                    plan,
                    i,
                ),
            restores@ == states@.take(at as int).filter(keep).map_values(work),
        decreases states@.len() - at,
    {
        let snapshot: GdnRollbackSnapshot = states[at];
        let layer: usize = snapshot.layer_idx;
        let ghost seen = states@.take(at as int);
        let ghost more = states@.take(at + 1);
        let ghost earlier = caches@;
        proof {
            assert(more == seen.push(snapshot));
            seen.lemma_filter_push(snapshot, keep);
        }
        let applicable = layer < caches.len() && matches!(caches[layer], Qwen4LayerCache::Linear { .. })
            && layers[layer].is_linear;
        proof {
            if layer < caches@.len() {
                assert(caches@[layer as int] == rolled_back(
                    before,
                    layers@,
                    seen,
                    plan,
                    layer as int,
                ));
            }
            assert(applicable == keep(snapshot));
        }
        if applicable {
            assert(layers@[layer as int].conv_kernel_size >= 1);
            restores.push(
                GdnRestore {
                    layer_idx: layer,
                    replay_len: plan.accepted_block_len,
                    conv_start: plan.accepted_block_len,
                    conv_end: plan.accepted_block_len + layers[layer].conv_kernel_size - 1,
                    offset: plan.final_offset,
                    restore_ple: snapshot.has_ple,
                    replay_ple: snapshot.has_ple && plan.accepted_block_len > 0,
                },
            );
            caches.set(layer, Qwen4LayerCache::Linear { offset: plan.final_offset });
            proof {
                let kept = seen.filter(keep);
                assert(kept.push(snapshot).map_values(work) =~= kept.map_values(work).push(
                    work(snapshot),
                ));
            }
        }
        proof {
            assert forall|i: int| 0 <= i < before.len() implies #[trigger] caches@[i]
                == rolled_back(before, layers@, more, plan, i) by {
                assert(earlier[i] == rolled_back(before, layers@, seen, plan, i));
                if applicable && i == layer {
                    assert(more[at as int] == snapshot);
                    assert(more[at as int].layer_idx == i && applies(
                        more[at as int],
                        before,
                        layers@,
                    ));
                } else {
                    if exists|k: int|
                        0 <= k < seen.len() && (#[trigger] seen[k]).layer_idx == i && applies(
                            seen[k],
                            before,
                            layers@,
                        ) {
                        let k = choose|k: int|
                            0 <= k < seen.len() && (#[trigger] seen[k]).layer_idx == i && applies(
                                seen[k],
                                before,
                                layers@,
                            );
                        assert(more[k] == seen[k]);
                    }
                    if exists|k: int|
                        0 <= k < more.len() && (#[trigger] more[k]).layer_idx == i && applies(
                            more[k],
                            before,
                            layers@,
                        ) {
                        let k = choose|k: int|
                            0 <= k < more.len() && (#[trigger] more[k]).layer_idx == i && applies(
                                more[k],
                                before,
                                layers@,
                            );
                        if k == at {
                            assert(more[k] == snapshot);
                        } else {
                            assert(more[k] == seen[k]);
                        }
                    }
                }
            }
        }
        at = at + 1;
    }
    assert(states@.take(states@.len() as int) == states@);
    (plan, restores)
}

/// When every layer stood at the same place and every recurrent layer was captured, every layer
/// stands at the same place after going back.
pub proof fn rollback_keeps_layers_together(
    caches: Seq<Qwen4LayerCache>,
    layers: Seq<LayerShape>,
    states: Seq<GdnRollbackSnapshot>,
    plan: Qwen4RollbackPlan,
    verify_offset: i32,
    index: int,
)
    requires
        layers.len() == caches.len(),
        0 <= index < caches.len(),
        forall|i: int|
            0 <= i < caches.len() ==> (#[trigger] caches[i]).spec_offset() == verify_offset
                && layers[i].is_linear == (caches[i] is Linear),
        forall|i: int|
            0 <= i < caches.len() && (#[trigger] caches[i]) is Linear ==> exists|k: int|
                0 <= k < states.len() && (#[trigger] states[k]).layer_idx == i,
        0 <= plan.trim <= verify_offset,
        plan.final_offset == verify_offset - plan.trim,
    ensures
        rolled_back(caches, layers, states, plan, index).spec_offset() == plan.final_offset,
{
    assert(caches[index].spec_offset() == verify_offset);
    if caches[index] is Linear {
        let k = choose|k: int|
            0 <= k < states.len() && (#[trigger] states[k]).layer_idx == index;
        assert(states[k].layer_idx == index && applies(states[k], caches, layers));
    }
}

/// Counts that fit are taken as they are; larger ones count as the largest machine integer. Nothing
/// goes where everything of a block stays, and the whole block where nothing does.
pub proof fn everything_stays_or_goes(retained: nat, block_size: nat)
    ensures
        retained <= 0x7fff_ffff ==> clamped(retained) == retained,
        retained > 0x7fff_ffff ==> clamped(retained) == 0x7fff_ffff,
        retained >= block_size ==> trimmed_tokens(retained, block_size) == 0,
        block_size <= 0x7fff_ffff ==> trimmed_tokens(0, block_size) == block_size,
        retained < block_size <= 0x7fff_ffff ==> trimmed_tokens(retained, block_size) == block_size
            - retained,
{
}

} // verus!
