//! Prompt snapshots: target and drafter state at an exact prompt boundary.

use vstd::prelude::*;
use crate::qwen3_5_mtp::draft::DraftState;
use crate::tokens::same_tokens;

verus! {

/// A detached array: element type, dimensions and raw contents.
#[derive(Debug)]
pub struct SnapshotArray {
    pub dtype: i32,
    pub shape: Vec<i32>,
    pub bytes: Vec<u8>,
}

impl SnapshotArray {
    /// Whether two arrays have the same type, dimensions and contents.
    pub open spec fn same(&self, other: SnapshotArray) -> bool {
        &&& self.dtype == other.dtype
        &&& self.shape@ == other.shape@
        &&& self.bytes@ == other.bytes@
    }

    fn copied(&self) -> (copy: SnapshotArray)
        ensures
            self.same(copy),
    {
        let shape: Vec<i32> = self.shape.clone();
        let bytes: Vec<u8> = self.bytes.clone();
        assert(shape@ == self.shape@);
        assert(bytes@ == self.bytes@);
        SnapshotArray { dtype: self.dtype, shape, bytes }
    }
}

/// Whether both arrays are there and the same, or neither is.
pub open spec fn same_optional(left: Option<SnapshotArray>, right: Option<SnapshotArray>) -> bool {
    match (left, right) {
        (Some(left), Some(right)) => left.same(right),
        (None, None) => true,
        _ => false,
    }
}

fn copy_optional(array: &Option<SnapshotArray>) -> (copy: Option<SnapshotArray>)
    ensures
        same_optional(*array, copy),
{
    match array {
        Some(array) => Some(array.copied()),
        None => None,
    }
}

/// The parts of a snapshot as they are stored. The target's own state is stored beside them.
#[derive(Debug)]
pub struct PortablePromptSnapshot {
    pub draft_keys: Option<SnapshotArray>,
    pub draft_values: Option<SnapshotArray>,
    pub draft_offset: i32,
    pub last_hidden: SnapshotArray,
    pub continuation_logits: SnapshotArray,
}

/// Detached target and drafter state at an exact text prompt boundary.
///
/// The target state represents `target_token_len` tokens. The drafter's cache represents the
/// shifted prompt and is one row shorter; it holds nothing of a sampled completion or of a
/// speculative round.
#[derive(Debug)]
pub struct MtpPromptSnapshot {
    pub target_token_len: usize,
    pub target_nbytes: usize,
    pub draft_keys: Option<SnapshotArray>,
    pub draft_values: Option<SnapshotArray>,
    pub draft_offset: i32,
    pub last_hidden: SnapshotArray,
    pub continuation_logits: SnapshotArray,
}

/// Exact-prefix state handed in from a prompt cache.
#[derive(Debug, Clone, Copy)]
pub struct MtpPrefixReuse<'a> {
    pub snapshot: &'a MtpPromptSnapshot,
    pub cached_tokens: usize,
    /// Accepted response suffix that the prompt already ends with but the snapshot does not hold.
    /// It becomes the bonus token of the next round without being emitted again.
    pub continuation_token: Option<i32>,
}

/// Why a snapshot is refused.
#[derive(Debug, Clone, Copy, PartialEq, Eq, Structural)]
pub enum MtpSnapshotError {
    /// A snapshot represents at least one token.
    EmptyPrompt,
    /// The token length does not fit the cache's offset.
    TokenLengthOverflow,
    /// Target length, drafter offset and the requested prefix disagree.
    OffsetMismatch,
    /// Keys without values, values without keys, or neither where rows are expected.
    IncompleteKeyValue,
    /// Keys and values are not of the same four dimensions.
    KeyValueShape,
    /// The last hidden state is not of shape `[1, 1, hidden]`.
    LastHiddenLayout,
    /// The continuation logits are not of shape `[1, 1, vocab]`.
    ContinuationLogitsLayout,
}

/// Bytes of an optional array.
pub open spec fn optional_nbytes(array: Option<SnapshotArray>) -> nat {
    match array {
        Some(array) => array.bytes@.len(),
        None => 0,
    }
}

fn optional_array_nbytes(array: &Option<SnapshotArray>) -> (nbytes: usize)
    ensures
        nbytes == optional_nbytes(*array),
{
    match array {
        Some(array) => array.bytes.len(),
        None => 0,
    }
}

/// Whether a shape is `[1, 1, n]`.
pub open spec fn is_single_row(shape: Seq<i32>) -> bool {
    shape.len() == 3 && shape[0] == 1 && shape[1] == 1
}

fn single_row(shape: &Vec<i32>) -> (single: bool)
    ensures
        single == is_single_row(shape@),
{
    shape.len() == 3 && shape[0] == 1 && shape[1] == 1
}

/// Why `token_len` tokens cannot go with a drafter at `draft_offset`, if they cannot.
pub open spec fn offset_error(
    token_len: nat,
    requested_len: nat,
    draft_offset: int,
) -> Option<MtpSnapshotError> {
    if requested_len == 0 {
        Some(MtpSnapshotError::EmptyPrompt)
    } else if requested_len - 1 > i32::MAX {
        Some(MtpSnapshotError::TokenLengthOverflow)
    } else if token_len != requested_len || draft_offset != requested_len - 1 {
        Some(MtpSnapshotError::OffsetMismatch)
    } else {
        None
    }
}

impl MtpPromptSnapshot {
    /// Whether keys and values are either both there or both absent, and there when rows are
    /// expected.
    pub open spec fn key_value_complete(&self) -> bool {
        &&& self.draft_keys is Some <==> self.draft_values is Some
        &&& self.draft_offset > 0 ==> self.draft_keys is Some
    }

    /// Whether keys and values, when there, are of the same four dimensions.
    pub open spec fn key_value_shapes_agree(&self) -> bool {
        self.draft_keys is Some && self.draft_values is Some
            ==> self.draft_keys->0.shape@.len() == 4 && self.draft_keys->0.shape@
            == self.draft_values->0.shape@
    }

    /// The first reason to refuse the snapshot.
    pub open spec fn layout_error(&self) -> Option<MtpSnapshotError> {
        let offsets = offset_error(
            self.target_token_len as nat,
            self.target_token_len as nat,
            self.draft_offset as int,
        );
        if offsets is Some {
            offsets
        } else if !self.key_value_complete() {
            Some(MtpSnapshotError::IncompleteKeyValue)
        } else if !self.key_value_shapes_agree() {
            Some(MtpSnapshotError::KeyValueShape)
        } else if !is_single_row(self.last_hidden.shape@) {
            Some(MtpSnapshotError::LastHiddenLayout)
        } else if !is_single_row(self.continuation_logits.shape@) {
            Some(MtpSnapshotError::ContinuationLogitsLayout)
        } else {
            None
        }
    }

    /// A snapshot that nothing refuses.
    pub open spec fn wf(&self) -> bool {
        self.layout_error() is None
    }

    /// Tokens that the target state represents.
    pub fn token_len(&self) -> (length: usize)
        ensures
            length == self.target_token_len,
    {
        self.target_token_len
    }

    /// Bytes that the snapshot holds.
    pub open spec fn spec_nbytes(&self) -> nat {
        self.target_nbytes as nat + optional_nbytes(self.draft_keys) + optional_nbytes(
            self.draft_values,
        ) + self.last_hidden.bytes@.len() + self.continuation_logits.bytes@.len()
    }

    /// Bytes that the snapshot holds.
    pub fn nbytes(&self) -> (nbytes: usize)
        requires
            self.spec_nbytes() <= usize::MAX,
        ensures
            nbytes == self.spec_nbytes(),
    {
        self.target_nbytes + optional_array_nbytes(&self.draft_keys) + optional_array_nbytes(
            &self.draft_values,
        ) + self.last_hidden.bytes.len() + self.continuation_logits.bytes.len()
    }

    /// Whether stored parts are those of this snapshot.
    pub open spec fn stored_as(&self, portable: PortablePromptSnapshot) -> bool {
        &&& same_optional(self.draft_keys, portable.draft_keys)
        &&& same_optional(self.draft_values, portable.draft_values)
        &&& self.draft_offset == portable.draft_offset
        &&& self.last_hidden.same(portable.last_hidden)
        &&& self.continuation_logits.same(portable.continuation_logits)
    }

    /// The parts to store.
    pub fn to_portable(&self) -> (portable: PortablePromptSnapshot)
        ensures
            self.stored_as(portable),
    {
        PortablePromptSnapshot {
            draft_keys: copy_optional(&self.draft_keys),
            draft_values: copy_optional(&self.draft_values),
            draft_offset: self.draft_offset,
            last_hidden: self.last_hidden.copied(),
            continuation_logits: self.continuation_logits.copied(),
        }
    }

    /// Builds a snapshot from stored parts, refusing parts that do not belong together.
    pub fn from_portable_parts(
        target_token_len: usize,
        target_nbytes: usize,
        draft_keys: Option<SnapshotArray>,
        draft_values: Option<SnapshotArray>,
        draft_offset: i32,
        last_hidden: SnapshotArray,
        continuation_logits: SnapshotArray,
    ) -> (result: Result<Self, MtpSnapshotError>)
        ensures
            ({
                let parts = MtpPromptSnapshot {
                    target_token_len,
                    target_nbytes,
                    draft_keys,
                    draft_values,
                    draft_offset,
                    last_hidden,
                    continuation_logits,
                };
                match result {
                    Ok(snapshot) => snapshot == parts && parts.wf(),
                    Err(error) => parts.layout_error() == Some(error),
                }
            }),
    {
        let snapshot = MtpPromptSnapshot {
            target_token_len,
            target_nbytes,
            draft_keys,
            draft_values,
            draft_offset,
            last_hidden,
            continuation_logits,
        };
        match snapshot.check_offsets(target_token_len) {
            Err(error) => {
                return Err(error);
            },
            Ok(_) => {},
        }
        if let (Some(keys), Some(values)) = (&snapshot.draft_keys, &snapshot.draft_values) {
            if keys.shape.len() != 4 || !same_tokens(keys.shape.as_slice(), values.shape.as_slice()) {
                return Err(MtpSnapshotError::KeyValueShape);
            }
        }
        if !single_row(&snapshot.last_hidden.shape) {
            return Err(MtpSnapshotError::LastHiddenLayout);
        }
        if !single_row(&snapshot.continuation_logits.shape) {
            return Err(MtpSnapshotError::ContinuationLogitsLayout);
        }
        Ok(snapshot)
    }

    fn check_offsets(&self, token_len: usize) -> (result: Result<i32, MtpSnapshotError>)
        ensures
            ({
                let offsets = offset_error(
                    self.target_token_len as nat,
                    token_len as nat,
                    self.draft_offset as int,
                );
                match result {
                    Ok(expected) => offsets is None && self.key_value_complete() && expected
                        == token_len - 1,
                    Err(error) => if offsets is Some {
                        offsets == Some(error)
                    } else {
                        !self.key_value_complete() && error == MtpSnapshotError::IncompleteKeyValue
                    },
                }
            }),
    {
        if token_len == 0 {
            return Err(MtpSnapshotError::EmptyPrompt);
        }
        if token_len - 1 > i32::MAX as usize {
            return Err(MtpSnapshotError::TokenLengthOverflow);
        }
        let expected: i32 = (token_len - 1) as i32;
        if self.target_token_len != token_len || self.draft_offset != expected {
            return Err(MtpSnapshotError::OffsetMismatch);
        }
        if self.draft_keys.is_some() != self.draft_values.is_some() || (expected > 0
            && self.draft_keys.is_none()) {
            return Err(MtpSnapshotError::IncompleteKeyValue);
        }
        Ok(expected)
    }

    /// The drafter's bookkeeping after restoring the snapshot as the prefix of `token_len` tokens.
    pub fn restore_prompt_snapshot(&self, token_len: usize) -> (result: Result<
        DraftState,
        MtpSnapshotError,
    >)
        ensures
            ({
                let offsets = offset_error(
                    self.target_token_len as nat,
                    token_len as nat,
                    self.draft_offset as int,
                );
                match result {
                    Ok(state) => offsets is None && self.key_value_complete() && state == (
                    DraftState {
                        cache_offset: (token_len - 1) as i32,
                        seeded: false,
                        rope_delta: None,
                        round_appended: 0,
                    }) && state.wf(),
                    Err(error) => if offsets is Some {
                        offsets == Some(error)
                    } else {
                        !self.key_value_complete() && error == MtpSnapshotError::IncompleteKeyValue
                    },
                }
            }),
    {
        match self.check_offsets(token_len) {
            Ok(expected) => Ok(
                DraftState {
                    cache_offset: expected,
                    seeded: false,
                    rope_delta: None,
                    round_appended: 0,
                },
            ),
            Err(error) => Err(error),
        }
    }
}

/// What a snapshot is stored as is accepted again if the snapshot was: the parts, beside the same
/// target state, have the same first problem or none.
pub proof fn stored_snapshot_comes_back(
    snapshot: MtpPromptSnapshot,
    portable: PortablePromptSnapshot,
)
    requires
        snapshot.stored_as(portable),
    ensures
        ({
            let back = MtpPromptSnapshot {
                target_token_len: snapshot.target_token_len,
                target_nbytes: snapshot.target_nbytes,
                draft_keys: portable.draft_keys,
                draft_values: portable.draft_values,
                draft_offset: portable.draft_offset,
                last_hidden: portable.last_hidden,
                continuation_logits: portable.continuation_logits,
            };
            &&& back.layout_error() == snapshot.layout_error()
            &&& back.wf() == snapshot.wf()
            &&& back.spec_nbytes() == snapshot.spec_nbytes()
        }),
{
}

/// Restoring gives back what capturing left: a drafter captured at `token_len` tokens, whose rows
/// are stored whenever it has any, is accepted for exactly that prefix.
pub proof fn captured_snapshot_restores(snapshot: MtpPromptSnapshot, captured: DraftState)
    requires
        captured.cache_offset == snapshot.draft_offset,
        snapshot.target_token_len >= 1,
        captured.cache_offset == snapshot.target_token_len - 1,
        snapshot.key_value_complete(),
    ensures
        offset_error(
            snapshot.target_token_len as nat,
            snapshot.target_token_len as nat,
            snapshot.draft_offset as int,
        ) is None,
        forall|other: nat|
            other != snapshot.target_token_len ==> offset_error(
                snapshot.target_token_len as nat,
                other,
                snapshot.draft_offset as int,
            ) is Some,
{
}

} // verus!
