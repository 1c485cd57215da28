//! How settings, plans and kernels of the dense layers are chosen.

use vstd::prelude::*;
use crate::qwen3_5_weights::slots::ModelRole;
use crate::qwen3_5_weights::source::says_no;
use crate::qwen3_next::{
    attention_segments, override_map, planned_affine, quantization_of, says_yes, stackable,
    AttentionKernel, KVCacheMode, LegacyProjection, MlpFusionDescriptor, Quantization, TensorQuantization,
};

use crate::text::normalized;

verus! {

/// Whether an entry is the last one of its name.
pub open spec fn is_last_of(
    entries: Seq<(String, TensorQuantization)>,
    at: int,
    name: Seq<char>,
) -> bool {
    &&& 0 <= at < entries.len()
    &&& entries[at].0@ == name
    &&& forall|later: int| at < later < entries.len() ==> #[trigger] entries[later].0@ != name
}

proof fn last_entry_counts(entries: Seq<(String, TensorQuantization)>, name: Seq<char>, at: int)
    ensures
        is_last_of(entries, at, name) ==> override_map(entries).dom().contains(name)
            && override_map(entries)[name] == entries[at].1,
        (forall|i: int| 0 <= i < entries.len() ==> #[trigger] entries[i].0@ != name)
            ==> !override_map(entries).dom().contains(name),
    decreases entries.len(),
{
    if entries.len() > 0 {
        let front = entries.drop_last();
        last_entry_counts(front, name, at);
        assert forall|i: int| 0 <= i < front.len() implies front[i] == entries[i] by {}
        if is_last_of(entries, at, name) && at < entries.len() - 1 {
            assert(entries[entries.len() - 1].0@ != name);
            assert(is_last_of(front, at, name));
        }
        if forall|i: int| 0 <= i < entries.len() ==> #[trigger] entries[i].0@ != name {
            assert(entries[entries.len() - 1].0@ != name);
            assert forall|i: int| 0 <= i < front.len() implies #[trigger] front[i].0@ != name by {
                assert(entries[i].0@ != name);
            }
        }
    }
}

/// The last override of a name counts; a name without one has none.
pub proof fn last_override_counts(quantization: Quantization, name: Seq<char>, at: int)
    ensures
        is_last_of(quantization.overrides@, at, name) ==> quantization.override_for(name) == Some(
            quantization.overrides@[at].1,
        ),
        (forall|i: int|
            0 <= i < quantization.overrides@.len() ==> #[trigger] quantization.overrides@[i].0@
                != name) ==> quantization.override_for(name) is None,
{
    last_entry_counts(quantization.overrides@, name, at);
}

/// A tensor's own override comes first, then that of its nested name, then the checkpoint's default;
/// an unquantised checkpoint counts as groups of sixty-four with four bits.
pub proof fn own_settings_come_first(quantization: Quantization, name: Seq<char>)
    ensures
        ({
            let own = quantization.override_for(name);
            let nested = quantization.override_for("language_model."@ + name);
            let chosen = quantization_of(Some(quantization), name);
            &&& own is Some ==> chosen == (own->0.group_size, own->0.bits)
            &&& own is None && nested is Some ==> chosen == (nested->0.group_size, nested->0.bits)
            &&& own is None && nested is None ==> chosen == (
                quantization.group_size,
                quantization.bits,
            )
        }),
        quantization_of(None, name) == (64i32, 4i32),
{
}

/// The first entry of the fusion plan for a block decides; the drafter's only block stands after the
/// sixty-four of the target.
pub proof fn first_fusion_entry_counts(
    plan: Seq<MlpFusionDescriptor>,
    role: ModelRole,
    layer: usize,
    at: int,
)
    requires
        0 <= at < plan.len(),
    ensures
        ({
            let wanted = if role == ModelRole::Mtp {
                64
            } else {
                layer
            };
            &&& plan[at].role == role && plan[at].layer == wanted && (forall|earlier: int|
                0 <= earlier < at ==> (#[trigger] plan[earlier]).role != role || plan[earlier].layer
                    != wanted) ==> planned_affine(plan, role, layer) == plan[at].all_affine
            &&& (forall|i: int|
                0 <= i < plan.len() ==> (#[trigger] plan[i]).role != role || plan[i].layer != wanted)
                ==> !planned_affine(plan, role, layer)
        }),
    decreases plan.len(),
{
    let wanted = if role == ModelRole::Mtp {
        64
    } else {
        layer
    };
    let rest = plan.skip(1);
    if rest.len() > 0 {
        let next = if at > 0 {
            at - 1
        } else {
            0
        };
        first_fusion_entry_counts(rest, role, layer, next);
        assert forall|i: int| 0 <= i < rest.len() implies rest[i] == plan[i + 1] by {}
        if forall|earlier: int|
            0 <= earlier < at ==> (#[trigger] plan[earlier]).role != role || plan[earlier].layer
                != wanted {
            assert forall|earlier: int| 0 <= earlier < next implies (#[trigger] rest[earlier]).role
                != role || rest[earlier].layer != wanted by {
                assert(plan[earlier + 1].role != role || plan[earlier + 1].layer != wanted);
            }
            if at > 0 {
                assert(plan[0].role != role || plan[0].layer != wanted);
            }
        }
        if forall|i: int|
            0 <= i < plan.len() ==> (#[trigger] plan[i]).role != role || plan[i].layer != wanted {
            assert(plan[0].role != role || plan[0].layer != wanted);
            assert forall|i: int| 0 <= i < rest.len() implies (#[trigger] rest[i]).role != role
                || rest[i].layer != wanted by {
                assert(plan[i + 1].role != role || plan[i + 1].layer != wanted);
            }
        }
    } else {
        assert(planned_affine(rest, role, layer) == false);
        if forall|i: int|
            0 <= i < plan.len() ==> (#[trigger] plan[i]).role != role || plan[i].layer != wanted {
            assert(plan[0].role != role || plan[0].layer != wanted);
        }
    }
}

/// Projections can be stacked exactly if they are quantised alike, with group biases and without a
/// global scale or a bias of their own; it does not matter which comes first.
pub proof fn like_projections_are_stackable(left: LegacyProjection, right: LegacyProjection)
    ensures
        stackable(left, right) == stackable(right, left),
        stackable(left, right) ==> stackable(left, left) && stackable(right, right),
        stackable(left, left) == (left.has_group_biases && !left.has_global_scale
            && !left.has_linear_bias),
        stackable(left, left) && stackable(right, right) ==> stackable(left, right) == (
        left.group_size == right.group_size && left.bits == right.bits && left.mode == right.mode),
{
}

/// Blocks go through in one pass, but for four unmasked rows on a plain cache, whose last row goes by
/// itself. A masked pass and a single row are not causal; packed storage has kernels of its own.
pub proof fn blocks_pass_at_once_but_for_four_rows(rows: i32, mode: KVCacheMode, masked: bool)
    requires
        rows > 0,
    ensures
        ({
            let segments = attention_segments(rows, mode, masked);
            let packed = mode == KVCacheMode::Turbo4;
            &&& segments.len() == if rows == 4 && !masked && !packed {
                2nat
            } else {
                1nat
            }
            &&& segments.last().rows.end == rows
            &&& segments.len() == 2 ==> segments[0].rows.end == 3
            &&& forall|i: int|
                0 <= i < segments.len() ==> {
                    let length = (#[trigger] segments[i]).rows.end - segments[i].rows.start;
                    let causal = !masked && length > 1;
                    segments[i].kernel == if packed && causal {
                        AttentionKernel::Turbo4Causal
                    } else if packed {
                        AttentionKernel::Turbo4
                    } else if causal {
                        AttentionKernel::Causal
                    } else {
                        AttentionKernel::Plain
                    }
                }
        }),
{
}

/// The words that switch a setting on or off, whatever their case and the white space around them.
pub proof fn settings_are_said_in_words(text: Seq<char>)
    ensures
        says_yes(text) <==> normalized(text) == "1"@ || normalized(text) == "true"@ || normalized(
            text,
        ) == "on"@ || normalized(text) == "yes"@,
        says_no(text) <==> normalized(text) == "0"@ || normalized(text) == "false"@ || normalized(
            text,
        ) == "off"@ || normalized(text) == "no"@,
{
    reveal_strlit("1");
    reveal_strlit("true");
    reveal_strlit("on");
    reveal_strlit("yes");
    reveal_strlit("0");
    reveal_strlit("false");
    reveal_strlit("off");
    reveal_strlit("no");
    assert("1"@ =~= seq!['1']);
    assert("true"@ =~= seq!['t', 'r', 'u', 'e']);
    assert("on"@ =~= seq!['o', 'n']);
    assert("yes"@ =~= seq!['y', 'e', 's']);
    assert("0"@ =~= seq!['0']);
    assert("false"@ =~= seq!['f', 'a', 'l', 's', 'e']);
    assert("off"@ =~= seq!['o', 'f', 'f']);
    assert("no"@ =~= seq!['n', 'o']);
}

} // verus!
