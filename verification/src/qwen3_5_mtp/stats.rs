//! Counters of a speculative generation and the policies that look at them.

use vstd::prelude::*;

verus! {

/// Counters of one generation. Times are in nanoseconds.
#[derive(Debug, Clone, Copy, PartialEq, Eq, Structural)]
pub struct MtpGenerationStats {
    pub accepted_draft_tokens: usize,
    pub proposed_draft_tokens: usize,
    /// Wall-clock time spent in the decode loop after the prefill.
    pub decode_time: u128,
    pub cache_clear_count: usize,
    pub cache_clear_time: u128,
    pub draft_time: u128,
    pub target_verify_time: u128,
    pub walk_time: u128,
    pub reconcile_time: u128,
    pub target_forward_calls: usize,
    pub speculative_rounds: usize,
    pub full_state_materializations: usize,
    pub cache_snapshot_count: usize,
}

impl Default for MtpGenerationStats {
    /// Nothing counted yet.
    fn default() -> (stats: Self)
        ensures
            stats == zero_stats(),
    {
        MtpGenerationStats {
            accepted_draft_tokens: 0,
            proposed_draft_tokens: 0,
            decode_time: 0,
            cache_clear_count: 0,
            cache_clear_time: 0,
            draft_time: 0,
            target_verify_time: 0,
            walk_time: 0,
            reconcile_time: 0,
            target_forward_calls: 0,
            speculative_rounds: 0,
            full_state_materializations: 0,
            cache_snapshot_count: 0,
        }
    }
}

/// All counters at zero.
pub open spec fn zero_stats() -> MtpGenerationStats {
    MtpGenerationStats {
        accepted_draft_tokens: 0,
        proposed_draft_tokens: 0,
        decode_time: 0,
        cache_clear_count: 0,
        cache_clear_time: 0,
        draft_time: 0,
        target_verify_time: 0,
        walk_time: 0,
        reconcile_time: 0,
        target_forward_calls: 0,
        speculative_rounds: 0,
        full_state_materializations: 0,
        cache_snapshot_count: 0,
    }
}

impl MtpGenerationStats {
    /// No more drafts were accepted than proposed.
    pub open spec fn wf(&self) -> bool {
        self.accepted_draft_tokens <= self.proposed_draft_tokens
    }

    /// Whether another round with `proposed` drafts can be counted.
    pub open spec fn has_room(&self, proposed: nat) -> bool {
        &&& self.accepted_draft_tokens + proposed <= usize::MAX
        &&& self.proposed_draft_tokens + proposed <= usize::MAX
        &&& self.target_forward_calls < usize::MAX
        &&& self.speculative_rounds < usize::MAX
        &&& self.full_state_materializations + 2 <= usize::MAX
        &&& self.cache_snapshot_count < usize::MAX
    }

    /// Counts the drafts of one round.
    pub fn record_round(&mut self, accepted: usize, proposed: usize)
        requires
            old(self).accepted_draft_tokens + accepted <= usize::MAX,
            old(self).proposed_draft_tokens + proposed <= usize::MAX,
        ensures
            *final(self) == (MtpGenerationStats {
                accepted_draft_tokens: (old(self).accepted_draft_tokens + accepted) as usize,
                proposed_draft_tokens: (old(self).proposed_draft_tokens + proposed) as usize,
                ..*old(self)
            }),
            old(self).wf() && accepted <= proposed ==> final(self).wf(),
    {
        self.accepted_draft_tokens = self.accepted_draft_tokens + accepted;
        self.proposed_draft_tokens = self.proposed_draft_tokens + proposed;
    }

    /// Counts one release of the allocator's cache.
    pub fn record_cache_clear(&mut self, elapsed: u128)
        requires
            old(self).cache_clear_count < usize::MAX,
            old(self).cache_clear_time + elapsed <= u128::MAX,
        ensures
            *final(self) == (MtpGenerationStats {
                cache_clear_count: (old(self).cache_clear_count + 1) as usize,
                cache_clear_time: (old(self).cache_clear_time + elapsed) as u128,
                ..*old(self)
            }),
    {
        self.cache_clear_count = self.cache_clear_count + 1;
        self.cache_clear_time = self.cache_clear_time + elapsed;
    }
}

/// Target tokens after which the whole cache state is materialized.
pub const MTP_STATE_MATERIALIZE_INTERVAL: usize = 128;

/// Cached allocator bytes at which the cache is released. Verify blocks of varying length leave
/// reusable buffers behind much faster than one-token decoding does; they are kept, so that common
/// shapes are served from the cache, until this bound is reached.
pub const MTP_CACHE_WATERMARK_BYTES: u64 = 3 * 256 * 1024 * 1024;

/// Whether going from `previous` to `emitted` tokens reaches or passes a multiple of `interval`.
/// An interval of zero is never reached.
pub open spec fn crosses_interval(previous: nat, emitted: nat, interval: nat) -> bool {
    interval != 0 && exists|multiple: nat|
        previous < #[trigger] (multiple * interval) && multiple * interval <= emitted
}

/// A multiple is reached where the number of whole intervals grows.
pub proof fn crossing_is_quotient_increase(previous: nat, emitted: nat, interval: nat)
    requires
        interval > 0,
    ensures
        crosses_interval(previous, emitted, interval) == (previous / interval < emitted / interval),
{
    let low = previous / interval;
    let high = emitted / interval;
    vstd::arithmetic::div_mod::lemma_fundamental_div_mod(previous as int, interval as int);
    vstd::arithmetic::div_mod::lemma_fundamental_div_mod(emitted as int, interval as int);
    if low < high {
        assert(high * interval <= emitted) by (nonlinear_arith)
            requires
                emitted == interval * high + emitted as int % interval as int,
                emitted as int % interval as int >= 0,
        ;
        assert(previous < high * interval) by (nonlinear_arith)
            requires
                previous == interval * low + previous as int % interval as int,
                (previous as int % interval as int) < interval,
                low + 1 <= high,
                interval > 0,
        ;
        assert(previous < high * interval && high * interval <= emitted);
    }
    if crosses_interval(previous, emitted, interval) {
        let multiple = choose|multiple: nat|
            previous < #[trigger] (multiple * interval) && multiple * interval <= emitted;
        assert(low < multiple) by (nonlinear_arith)
            requires
                previous == interval * low + previous as int % interval as int,
                previous as int % interval as int >= 0,
                previous < multiple * interval,
                interval > 0,
        ;
        assert(multiple <= high) by (nonlinear_arith)
            requires
                emitted == interval * high + emitted as int % interval as int,
                (emitted as int % interval as int) < interval,
                multiple * interval <= emitted,
                interval > 0,
        ;
    }
}

/// Whether a round that took the output from `previous` to `emitted` tokens reaches a multiple of
/// `interval`, even when it jumps over it.
pub fn mtp_round_reaches_cache_clear(previous: usize, emitted: usize, interval: usize) -> (reached:
    bool)
    ensures
        reached == crosses_interval(previous as nat, emitted as nat, interval as nat),
{
    if interval == 0 {
        return false;
    }
    proof {
        crossing_is_quotient_increase(previous as nat, emitted as nat, interval as nat);
    }
    previous / interval < emitted / interval
}

/// Whether the allocator's cache is to be released: it reached its watermark, or the output
/// reached the configured interval.
pub fn mtp_cache_should_clear(
    previous: usize,
    emitted: usize,
    configured_interval: usize,
    cache_bytes: u64,
    cache_watermark_bytes: u64,
) -> (clear: bool)
    ensures
        clear == (cache_bytes >= cache_watermark_bytes || crosses_interval(
            previous as nat,
            emitted as nat,
            configured_interval as nat,
        )),
{
    cache_bytes >= cache_watermark_bytes || mtp_round_reaches_cache_clear(
        previous,
        emitted,
        configured_interval,
    )
}

/// Cached bytes after `rounds` rounds that each leave `bytes_per_round` behind, when the policy
/// above is asked after every round and every release empties the cache.
pub open spec fn cached_after(
    rounds: nat,
    tokens_per_round: nat,
    interval: nat,
    bytes_per_round: nat,
    watermark: nat,
) -> nat
    decreases rounds,
{
    if rounds == 0 {
        0
    } else {
        let before = (rounds - 1) as nat;
        let cached = cached_after(before, tokens_per_round, interval, bytes_per_round, watermark)
            + bytes_per_round;
        if cached >= watermark || crosses_interval(
            before * tokens_per_round,
            rounds * tokens_per_round,
            interval,
        ) {
            0
        } else {
            cached
        }
    }
}

/// The watermark bounds the cache whatever the interval: what is kept after a round stays below
/// it, so the cache never grows past the watermark by more than one round's buffers.
pub proof fn watermark_bounds_cache(
    rounds: nat,
    tokens_per_round: nat,
    interval: nat,
    bytes_per_round: nat,
    watermark: nat,
)
    requires
        watermark > 0,
    ensures
        cached_after(rounds, tokens_per_round, interval, bytes_per_round, watermark) < watermark,
{
}

} // verus!
