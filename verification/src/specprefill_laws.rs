//! How much of a prompt a sparse prefill keeps, and which part.

use vstd::arithmetic::power2::{lemma_pow2_unfold, pow2};
use vstd::prelude::*;
use vstd::set_lib::{lemma_int_range, lemma_map_size, lemma_subset_equality, set_int_range};
use crate::binary32::{short_integers_are_exact, single, single_is_near, unit_of_single};
use crate::binary64::{nearest_integer, powers_add, powers_grow, two_to};
use crate::specprefill::{
    all_positions, better_chunks_are_kept_first, ceiling, ceiling_is_least, ceiling_is_unique,
    chunk_count,
    chunks_to_keep, kept_positions, kept_positions_ascend, keeps_token, outranks, rank, rank_among,
    selected, share_of_chunks, SpecPrefillConfig, CHUNK_TOKENS, LOOKAHEAD_TOKENS,
    MANDATORY_TAIL_TOKENS, POOL_WIDTH,
};

verus! {

proof fn powers_agree(n: nat)
    ensures
        two_to(n) == pow2(n),
    decreases n,
{
    if n == 0 {
        vstd::arithmetic::power2::lemma2_to64();
    } else {
        powers_agree((n - 1) as nat);
        lemma_pow2_unfold(n);
    }
}

/// The significand of a positive number in single precision as an integer: twenty-three bits of
/// fraction, under a leading one unless the exponent field is empty.
pub open spec fn ieee_significand(bits: u32) -> int {
    let exponent = bits as int / pow2(23) as int;
    let fraction = bits as int % pow2(23) as int;
    if exponent == 0 {
        fraction
    } else {
        pow2(23) + fraction
    }
}

/// What the significand is divided by: with exponent field `e` a number is one and its fraction,
/// times two to the power of `e - 127`. Numbers of an empty exponent field are scaled like those of
/// the first.
pub open spec fn ieee_divisor(bits: u32) -> int {
    let exponent = bits as int / pow2(23) as int;
    if exponent == 0 {
        pow2(149) as int
    } else {
        pow2((150 - exponent) as nat) as int
    }
}

/// The chunks that are kept are the rate times the chunks, rounded up, but for the rounding of
/// single precision: the count and the product are each off by at most one part in two to the power
/// of twenty-four, and a count of up to that many is not off at all. The rate is
/// `ieee_significand / ieee_divisor`.
pub proof fn kept_chunks_are_rate_times_chunks(count: nat, keep_rate_bits: u32)
    requires
        0 < keep_rate_bits < 0x3f80_0000,
    ensures
        ({
            let kept = chunks_to_keep(count, keep_rate_bits) as int;
            let share = count * ieee_significand(keep_rate_bits);
            let divisor = ieee_divisor(keep_rate_bits);
            &&& (kept * divisor) * 0x1_0000_0000_0000 >= share * (0xff_ffff * 0xff_ffff)
            &&& kept > 0 ==> ((kept - 1) * divisor) * 0x1_0000_0000_0000 < share * (0x100_0001
                * 0x100_0001)
            &&& count <= 0x100_0000 ==> (kept * divisor) * 0x100_0000 >= share * 0xff_ffff
            &&& count <= 0x100_0000 && kept > 0 ==> ((kept - 1) * divisor) * 0x100_0000 < share
                * 0x100_0001
            &&& count > 0 ==> kept > 0
            &&& count == 0 ==> kept == 0
        }),
{
    vstd::arithmetic::power2::lemma2_to64();
    let exponent = keep_rate_bits as int / 0x80_0000;
    let fraction = keep_rate_bits as int % 0x80_0000;
    let significand = ieee_significand(keep_rate_bits);
    let divisor = ieee_divisor(keep_rate_bits);
    if exponent == 0 {
        powers_agree(149);
        powers_grow(0, 149);
    } else {
        powers_agree((150 - exponent) as nat);
        powers_grow(0, (150 - exponent) as nat);
    }
    let rounded = single(count);
    let exact = rounded * significand;
    let product = single(exact as nat);
    let kept = chunks_to_keep(count, keep_rate_bits) as int;
    assert(kept == ceiling(product, divisor as nat));
    ceiling_is_least(product, divisor as nat);
    single_is_near(count);
    assert(exact >= 0) by (nonlinear_arith)
        requires
            exact == rounded * significand,
            rounded >= 0,
            significand >= 0,
    ;
    single_is_near(exact as nat);
    let share = count * significand;
    let p = 0x100_0000int;
    assert(significand > 0);
    // The count is nearly itself.
    assert((p - 1) * share <= p * exact <= (p + 1) * share) by (nonlinear_arith)
        requires
            exact == rounded * significand,
            share == count * significand,
            significand > 0,
            -count <= p * (rounded - count) <= count,
    ;
    // And so is the product.
    assert((p - 1) * exact <= p * product <= (p + 1) * exact) by (nonlinear_arith)
        requires
            -exact <= p * (product - exact) <= exact,
    ;
    assert((p - 1) * ((p - 1) * share) <= p * (p * product) <= (p + 1) * ((p + 1) * share))
        by (nonlinear_arith)
        requires
            (p - 1) * share <= p * exact <= (p + 1) * share,
            (p - 1) * exact <= p * product <= (p + 1) * exact,
            p == 0x100_0000,
    ;
    assert(p * (p * product) == product * 0x1_0000_0000_0000) by (nonlinear_arith)
        requires
            p == 0x100_0000,
    ;
    assert((p - 1) * ((p - 1) * share) == share * (0xff_ffff * 0xff_ffff)) by (nonlinear_arith)
        requires
            p == 0x100_0000,
    ;
    assert((p + 1) * ((p + 1) * share) == share * (0x100_0001 * 0x100_0001)) by (nonlinear_arith)
        requires
            p == 0x100_0000,
    ;
    if count <= 0x100_0000 {
        short_integers_are_exact(count);
    }
    if count == 0 {
        assert(exact == 0) by (nonlinear_arith)
            requires
                exact == rounded * significand,
                rounded == 0,
        ;
        assert(product == 0);
    } else {
        assert(share > 0) by (nonlinear_arith)
            requires
                share == count * significand,
                count > 0,
                significand > 0,
        ;
        assert(product > 0) by (nonlinear_arith)
            requires
                (p - 1) * ((p - 1) * share) <= p * (p * product),
                share > 0,
                p == 0x100_0000,
        ;
        if kept == 0 {
            assert(kept * divisor == 0) by (nonlinear_arith)
                requires
                    kept == 0,
            ;
        }
    }
}

/// The default rate keeps exactly every fifth chunk.
pub proof fn default_rate_is_a_fifth(n: nat)
    requires
        n <= 0x20_0000,
    ensures
        chunks_to_keep(5 * n, 0x3e4c_cccd) == n,
{
    let count = 5 * n;
    let significand: nat = 0xcc_cccd;
    let unit_power = two_to(26);
    assert(two_to(26) == 0x400_0000) by {
        reveal_with_fuel(two_to, 27);
    }
    short_integers_are_exact(count);
    let exact = count * significand;
    assert(exact == n * 0x400_0000 + n);
    if n == 0 {
        short_integers_are_exact(0);
        ceiling_is_unique(0, unit_power, 0);
    } else {
        let k = unit_of_single(exact);
        let unit = two_to(k);
        powers_grow(0, k);
        // The unit divides two to the power of twenty-six, and is more than twice the rest.
        assert(k <= 26) by {
            if k > 26 {
                powers_grow(27, k);
                assert(two_to(27) == 2 * two_to(26));
            }
        }
        powers_add(k, (26 - k) as nat);
        let rest = two_to((26 - k) as nat);
        assert(unit * rest == 0x400_0000);
        let floor = (n * rest) as int;
        assert(exact == floor * unit + n) by (nonlinear_arith)
            requires
                exact == n * 0x400_0000 + n,
                unit * rest == 0x400_0000,
                floor == n * rest,
        ;
        assert(4 * n < unit);
        vstd::arithmetic::div_mod::lemma_fundamental_div_mod_converse(
            exact as int,
            unit as int,
            floor,
            n as int,
        );
        assert(nearest_integer(exact, unit) == floor);
        assert(single(exact) == n * 0x400_0000) by (nonlinear_arith)
            requires
                single(exact) == floor * unit,
                unit * rest == 0x400_0000,
                floor == n * rest,
        ;
        ceiling_is_unique(n * 0x400_0000, 0x400_0000, n);
    }
}

/// Ranks are below the number of chunks.
proof fn ranks_are_bounded(scores: Seq<i32>, chunk: int, count: nat)
    requires
        0 <= chunk < scores.len(),
        count <= scores.len(),
    ensures
        rank_among(scores, chunk, count) <= count,
        chunk < count ==> rank_among(scores, chunk, count) < count,
    decreases count,
{
    if count > 0 {
        ranks_are_bounded(scores, chunk, (count - 1) as nat);
    }
}

/// The chunks among the best `keep`.
pub open spec fn best_chunks(scores: Seq<i32>, keep: int) -> Set<int> {
    Set::new(|chunk: int| 0 <= chunk < scores.len() && rank(scores, chunk) < keep)
}

/// Every place in the ranking is taken by one chunk, so that as many chunks are kept as there are to
/// be, and none that is kept scores less than one that is dropped; of equal ones the earlier stays.
pub proof fn best_chunks_are_counted(scores: Seq<i32>, keep: int)
    requires
        keep >= 0,
    ensures
        best_chunks(scores, keep).finite(),
        best_chunks(scores, keep).len() == if keep <= scores.len() {
            keep
        } else {
            scores.len() as int
        },
        forall|kept: int, dropped: int|
            #![trigger best_chunks(scores, keep).contains(kept), best_chunks(scores, keep).contains(dropped)]
            best_chunks(scores, keep).contains(kept) && 0 <= dropped < scores.len()
                && !best_chunks(scores, keep).contains(dropped) ==> scores[kept] > scores[dropped]
                || (scores[kept] == scores[dropped] && kept < dropped),
{
    let n = scores.len() as int;
    let all = set_int_range(0, n);
    let ranking = |chunk: int| rank(scores, chunk) as int;
    lemma_int_range(0, n);
    assert forall|a: int, b: int|
        all.contains(a) && all.contains(b) && #[trigger] ranking(a) == #[trigger] ranking(b) implies a
        == b by {
        if a != b {
            if outranks(scores, a, b) {
                better_chunks_are_kept_first(scores, a, b);
            } else {
                better_chunks_are_kept_first(scores, b, a);
            }
        }
    }
    let places = all.map(ranking);
    lemma_map_size(all, places, ranking);
    assert forall|place: int| places.contains(place) implies all.contains(place) by {
        let chunk = choose|chunk: int| all.contains(chunk) && ranking(chunk) == place;
        ranks_are_bounded(scores, chunk, scores.len());
    }
    lemma_subset_equality(places, all);
    let best = best_chunks(scores, keep);
    let filled = if keep <= n {
        keep
    } else {
        n
    };
    let first = set_int_range(0, filled);
    lemma_int_range(0, filled);
    assert(best.subset_of(all));
    vstd::set_lib::lemma_set_subset_finite(all, best);
    assert(best.map(ranking) =~= first) by {
        assert forall|place: int| first.contains(place) implies best.map(ranking).contains(
            place,
        ) by {
            assert(places.contains(place));
            let chunk = choose|chunk: int| all.contains(chunk) && ranking(chunk) == place;
            assert(best.contains(chunk));
        }
        assert forall|place: int| best.map(ranking).contains(place) implies first.contains(
            place,
        ) by {
            let chunk = choose|chunk: int| best.contains(chunk) && ranking(chunk) == place;
            ranks_are_bounded(scores, chunk, scores.len());
        }
    }
    lemma_map_size(best, first, ranking);
    assert forall|kept: int, dropped: int|
        #![trigger best.contains(kept), best.contains(dropped)]
        best.contains(kept) && 0 <= dropped < scores.len() && !best.contains(
            dropped,
        ) implies scores[kept] > scores[dropped] || (scores[kept] == scores[dropped] && kept
        < dropped) by {
        if !(scores[kept] > scores[dropped] || (scores[kept] == scores[dropped] && kept < dropped)) {
            assert(outranks(scores, dropped, kept));
            better_chunks_are_kept_first(scores, dropped, kept);
        }
    }
}

/// A token below a rate of one is kept exactly if its chunk of thirty-two tokens is among the best,
/// or if it is one of the last five hundred and twelve. As many chunks are the best as the rate asks
/// for.
pub proof fn selection_is_best_chunks_and_tail(
    scores: Seq<i32>,
    eligible_start: int,
    prompt_len: int,
    keep_rate_bits: u32,
    position: int,
)
    requires
        0 <= eligible_start <= position < prompt_len <= usize::MAX,
        32 * scores.len() >= prompt_len - eligible_start,
        0 < keep_rate_bits < 0x3f80_0000,
        chunks_to_keep(scores.len(), keep_rate_bits) <= usize::MAX,
    ensures
        selected(scores, eligible_start, prompt_len, keep_rate_bits).contains(position) == (
        best_chunks(scores, chunks_to_keep(scores.len(), keep_rate_bits) as int).contains(
            (position - eligible_start) / 32,
        ) || prompt_len - position <= 512),
{
    let length = prompt_len - eligible_start;
    let keep = share_of_chunks(scores.len(), keep_rate_bits) as int;
    let index = position - eligible_start;
    let positions = kept_positions(scores, length, keep, eligible_start, length as nat);
    kept_positions_ascend(scores, length, keep, eligible_start, length as nat);
    if positions.contains(position) {
        only_kept_positions(scores, length, keep, eligible_start, length as nat, position);
    }
    if keeps_token(scores, length, keep, index) {
        assert(positions.contains(eligible_start + index));
    }
    assert(0 <= index / 32 < scores.len());
}

proof fn only_kept_positions(
    scores: Seq<i32>,
    length: int,
    keep: int,
    start: int,
    count: nat,
    position: int,
)
    requires
        kept_positions(scores, length, keep, start, count).contains(position),
    ensures
        0 <= position - start < count,
        keeps_token(scores, length, keep, position - start),
    decreases count,
{
    let all = kept_positions(scores, length, keep, start, count);
    let at = all.index_of(position);
    if count > 0 {
        let front = kept_positions(scores, length, keep, start, (count - 1) as nat);
        if at < front.len() {
            assert(front[at] == position);
            only_kept_positions(scores, length, keep, start, (count - 1) as nat, position);
        }
    }
}

/// A rate of one or more keeps every eligible token.
pub proof fn full_rate_keeps_everything(
    scores: Seq<i32>,
    eligible_start: int,
    prompt_len: int,
    keep_rate_bits: u32,
    position: int,
)
    requires
        0 <= eligible_start <= prompt_len,
        0x3f80_0000 <= keep_rate_bits <= 0x7f80_0000,
    ensures
        selected(scores, eligible_start, prompt_len, keep_rate_bits).contains(position) == (
        eligible_start <= position < prompt_len),
        selected(scores, eligible_start, prompt_len, keep_rate_bits).len() == prompt_len
            - eligible_start,
{
    let positions = all_positions(eligible_start, prompt_len);
    if eligible_start <= position < prompt_len {
        assert(positions[position - eligible_start] == position);
    }
}

/// There are as many chunks of thirty-two tokens as it takes to hold all tokens, the last one perhaps
/// in part.
pub proof fn chunks_hold_all_tokens(tokens: nat)
    ensures
        tokens <= 32 * chunk_count(tokens) < tokens + 32,
{
    ceiling_is_least(tokens, 32);
}

/// A rate that is no number above zero keeps the last five hundred and twelve tokens only.
pub proof fn no_rate_keeps_the_tail_only(
    scores: Seq<i32>,
    eligible_start: int,
    prompt_len: int,
    keep_rate_bits: u32,
    position: int,
)
    requires
        0 <= eligible_start <= position < prompt_len,
        keep_rate_bits == 0 || keep_rate_bits > 0x7f80_0000,
    ensures
        selected(scores, eligible_start, prompt_len, keep_rate_bits).contains(position) == (prompt_len
            - position <= 512),
{
    let length = prompt_len - eligible_start;
    let index = position - eligible_start;
    let positions = kept_positions(scores, length, 0, eligible_start, length as nat);
    kept_positions_ascend(scores, length, 0, eligible_start, length as nat);
    if positions.contains(position) {
        only_kept_positions(scores, length, 0, eligible_start, length as nat, position);
    }
    if keeps_token(scores, length, 0, index) {
        assert(positions.contains(eligible_start + index));
    }
}

/// A configuration is accepted exactly if it thins out prompts of some length, its rate is above zero
/// and at most one, and the protected prefix is part of the prompt.
pub proof fn accepted_configurations_are_sound(config: SpecPrefillConfig, prompt_len: nat)
    ensures
        config.problem(prompt_len as int) is None <==> {
            &&& config.min_tokens > 0
            &&& 0 < config.keep_rate_bits <= 0x3f80_0000
            &&& config.protected_prefix_tokens <= prompt_len
        },
{
}

/// A prompt is scored by eight drafted tokens, each score averaged with six neighbours on either side.
pub proof fn scoring_windows_are_fixed()
    ensures
        LOOKAHEAD_TOKENS == 8,
        POOL_WIDTH == 6 + 1 + 6,
        CHUNK_TOKENS == 32,
        MANDATORY_TAIL_TOKENS == 16 * CHUNK_TOKENS,
{
}

} // verus!
