//! Compact output heads: a frequent prefix of the vocabulary plus the control tokens.

use vstd::prelude::*;
use crate::qwen3_next::RowRange;

verus! {

/// Vocabulary rows that the drafting head starts with.
pub const MTP_DRAFT_PREFIX: i32 = 65_536;

/// Rows of the drafting head, padding included.
pub const MTP_DRAFT_PADDED: i32 = 65_568;

/// Vocabulary rows that the verifying head starts with.
pub const MTP_VERIFY_PREFIX: i32 = 80_896;

/// Rows of the verifying head, padding included.
pub const MTP_VERIFY_PADDED: i32 = 80_928;

/// First control token.
pub const DRAFT_CONTROL_START: i32 = 248_044;

/// End of the control tokens.
pub const DRAFT_CONTROL_END: i32 = 248_070;

/// Vocabulary that the compact heads are cut out of.
pub const COMPACT_VOCABULARY: usize = 248_320;

/// Rows of a compact head that stand for tokens.
pub open spec fn compact_width(prefix_len: i32) -> int {
    prefix_len + (DRAFT_CONTROL_END - DRAFT_CONTROL_START)
}

/// The token that a row of a compact head stands for.
pub open spec fn compact_token(row: int, prefix_len: int) -> int {
    if row < prefix_len {
        row
    } else {
        DRAFT_CONTROL_START + (row - prefix_len)
    }
}

/// The vocabulary rows that a compact head is put together from, in order: the prefix, the control
/// tokens, and rows from the start again as padding.
pub fn compact_rows(prefix_len: i32, padded_len: i32) -> (parts: Vec<RowRange>)
    requires
        0 <= prefix_len,
        compact_width(prefix_len) <= padded_len,
    ensures
        parts@ == seq![
            RowRange { start: 0, end: prefix_len },
            RowRange { start: DRAFT_CONTROL_START, end: DRAFT_CONTROL_END },
            RowRange { start: 0, end: (padded_len - compact_width(prefix_len)) as i32 },
        ],
{
    let width: i32 = prefix_len + (DRAFT_CONTROL_END - DRAFT_CONTROL_START);
    let mut parts: Vec<RowRange> = Vec::new();
    parts.push(RowRange { start: 0, end: prefix_len });
    parts.push(RowRange { start: DRAFT_CONTROL_START, end: DRAFT_CONTROL_END });
    parts.push(RowRange { start: 0, end: padded_len - width });
    assert(parts@ == seq![
        RowRange { start: 0, end: prefix_len },
        RowRange { start: DRAFT_CONTROL_START, end: DRAFT_CONTROL_END },
        RowRange { start: 0, end: (padded_len - compact_width(prefix_len)) as i32 },
    ]);
    parts
}

/// Whether a compact head is cut out of an output head: only of a quantised one without a bias over
/// the full vocabulary.
pub fn compact_head(quantized: bool, has_bias: bool, vocab_size: usize) -> (compact: bool)
    ensures
        compact == (quantized && !has_bias && vocab_size == COMPACT_VOCABULARY),
{
    quantized && !has_bias && vocab_size == COMPACT_VOCABULARY
}

/// Columns of compact logits that stand for tokens; padding is cut off.
pub fn compact_logit_width(prefix_len: i32) -> (width: i32)
    requires
        compact_width(prefix_len) <= i32::MAX,
    ensures
        width == compact_width(prefix_len),
{
    prefix_len + (DRAFT_CONTROL_END - DRAFT_CONTROL_START)
}

/// What logits are computed with.
#[derive(Debug, Clone, Copy, PartialEq, Eq, Structural)]
pub enum Projection {
    /// The embedding, which the output head shares.
    Embedding,
    /// The output head over the full vocabulary.
    Full,
    /// A compact head, of whose columns the first `width` are kept.
    Compact { width: i32 },
}

/// What logits over the full vocabulary are computed with.
pub open spec fn full_projection(has_lm_head: bool) -> Projection {
    if has_lm_head {
        Projection::Full
    } else {
        Projection::Embedding
    }
}

/// What logits over the full vocabulary are computed with.
pub fn project_logits(has_lm_head: bool) -> (projection: Projection)
    ensures
        projection == full_projection(has_lm_head),
{
    if has_lm_head {
        Projection::Full
    } else {
        Projection::Embedding
    }
}

/// What compact logits are computed with. A model without the compact head computes all of them.
pub fn project_compact_logits(has_compact_head: bool, has_lm_head: bool, prefix_len: i32) -> (
    projection: Projection)
    requires
        compact_width(prefix_len) <= i32::MAX,
    ensures
        projection == if has_compact_head {
            Projection::Compact { width: compact_width(prefix_len) as i32 }
        } else {
            full_projection(has_lm_head)
        },
{
    if has_compact_head {
        Projection::Compact { width: compact_logit_width(prefix_len) }
    } else {
        project_logits(has_lm_head)
    }
}

/// How the weight of an output head is stored.
#[derive(Debug, Clone, Copy, PartialEq, Eq, Structural)]
pub struct HeadWeight {
    /// Quantised with a scale and an offset per group.
    pub affine: bool,
    /// Its scales are of brain floating point.
    pub bfloat16_scales: bool,
}

/// Whether rows of half precision give logits of full precision under a head.
pub open spec fn promotes(head: Option<HeadWeight>) -> bool {
    head matches Some(weight) && weight.affine && weight.bfloat16_scales
}

/// How the logits of drafted tokens are computed for verification.
#[derive(Debug, Clone, Copy, PartialEq, Eq, Structural)]
pub struct VerifyProjection {
    pub projection: Projection,
    /// Whether the normalised rows are cast to half precision first.
    pub half_rows: bool,
}

/// How the logits of drafted tokens are computed for verification. Rows are cast only for the very
/// head that was asked for, not for one that stands in for a missing compact head.
pub fn project_verify_logits(
    compact_logits: bool,
    compact_head: Option<HeadWeight>,
    lm_head: Option<HeadWeight>,
) -> (verify: VerifyProjection)
    ensures
        verify.projection == if compact_logits && compact_head is Some {
            Projection::Compact { width: compact_width(MTP_VERIFY_PREFIX) as i32 }
        } else {
            full_projection(lm_head is Some)
        },
        verify.half_rows == promotes(
            if compact_logits {
                compact_head
            } else {
                lm_head
            },
        ),
{
    let head: Option<HeadWeight> = if compact_logits {
        compact_head
    } else {
        lm_head
    };
    let half_rows: bool = match head {
        Some(weight) => weight.affine && weight.bfloat16_scales,
        None => false,
    };
    let projection: Projection = if compact_logits {
        project_compact_logits(compact_head.is_some(), lm_head.is_some(), MTP_VERIFY_PREFIX)
    } else {
        project_logits(lm_head.is_some())
    };
    VerifyProjection { projection, half_rows }
}

/// The token that a row of the drafting head stands for.
pub fn map_draft_token(token: i32) -> (mapped: i32)
    requires
        token + DRAFT_CONTROL_START <= i32::MAX,
    ensures
        mapped == compact_token(token as int, MTP_DRAFT_PREFIX as int),
{
    if token < MTP_DRAFT_PREFIX {
        token
    } else {
        token + DRAFT_CONTROL_START - MTP_DRAFT_PREFIX
    }
}

/// The token that a row of the verifying head stands for.
pub fn map_mtp_verify_token(token: i32) -> (mapped: i32)
    requires
        token + DRAFT_CONTROL_START <= i32::MAX,
    ensures
        mapped == compact_token(token as int, MTP_VERIFY_PREFIX as int),
{
    if token < MTP_VERIFY_PREFIX {
        token
    } else {
        token + DRAFT_CONTROL_START - MTP_VERIFY_PREFIX
    }
}

/// The source row of a row of a compact head, given the parts that it is put together from.
pub open spec fn source_row(parts: Seq<RowRange>, row: int) -> int
    decreases parts.len(),
{
    if parts.len() == 0 {
        row
    } else if row < parts[0].end - parts[0].start {
        parts[0].start + row
    } else {
        source_row(parts.skip(1), row - (parts[0].end - parts[0].start))
    }
}

/// Mapping undoes compaction: the token that a row is mapped to is the vocabulary row that was
/// copied there, and it is a token of the vocabulary.
pub proof fn mapping_undoes_compaction(prefix_len: i32, padded_len: i32, row: int)
    requires
        0 <= prefix_len <= DRAFT_CONTROL_START,
        compact_width(prefix_len) <= padded_len,
        0 <= row < compact_width(prefix_len),
    ensures
        source_row(
            seq![
                RowRange { start: 0, end: prefix_len },
                RowRange { start: DRAFT_CONTROL_START, end: DRAFT_CONTROL_END },
                RowRange { start: 0, end: (padded_len - compact_width(prefix_len)) as i32 },
            ],
            row,
        ) == compact_token(row, prefix_len as int),
        0 <= compact_token(row, prefix_len as int) < COMPACT_VOCABULARY,
{
    let parts = seq![
        RowRange { start: 0, end: prefix_len },
        RowRange { start: DRAFT_CONTROL_START, end: DRAFT_CONTROL_END },
        RowRange { start: 0, end: (padded_len - compact_width(prefix_len)) as i32 },
    ];
    assert(parts.skip(1)[0] == parts[1]);
    reveal_with_fuel(source_row, 3);
}

/// Different rows of a compact head stand for different tokens.
pub proof fn compact_tokens_are_distinct(prefix_len: i32, left: int, right: int)
    requires
        0 <= prefix_len <= DRAFT_CONTROL_START,
        0 <= left < right < compact_width(prefix_len),
    ensures
        compact_token(left, prefix_len as int) < compact_token(right, prefix_len as int),
{
}

} // verus!
