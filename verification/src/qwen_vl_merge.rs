//! Putting image features in the place of image tokens.

use vstd::prelude::*;
use crate::binary32::{
    nearest_single, rounding_stays_below, short_integers_are_exact, single,
};
use crate::qwen_vl::occurrences;

verus! {

/// Why features cannot be merged.
#[derive(Debug, Clone, Copy, PartialEq, Eq, Structural)]
pub enum MergeError {
    /// Features have fewer than two dimensions.
    FeatureRank,
    /// Embeddings are not of shape batch, sequence, width.
    EmbeddingRank,
    WidthMismatch,
    /// There are not as many features as image tokens.
    CountMismatch,
}

/// A token in single precision.
pub open spec fn in_single_precision(token: i32) -> int {
    if token < 0 {
        -single((-token) as nat)
    } else {
        single(token as nat) as int
    }
}

/// The token that inputs are compared with: image tokens go through single precision.
pub open spec fn compared_token(image_token: i32) -> i32 {
    in_single_precision(image_token) as i32
}

/// Tokens of up to twenty-four bits are compared as they are.
pub proof fn ordinary_tokens_are_exact(token: i32)
    requires
        -0x100_0000 <= token <= 0x100_0000,
    ensures
        in_single_precision(token) == token,
        compared_token(token) == token,
{
    if token < 0 {
        short_integers_are_exact((-token) as nat);
    } else {
        short_integers_are_exact(token as nat);
    }
}

/// Rounds a token to single precision.
fn single_precision(token: i32) -> (value: i64)
    ensures
        value == in_single_precision(token),
        value >= i32::MIN,
{
    let size: u32 = if token < 0 {
        (-(token as i64)) as u32
    } else {
        token as u32
    };
    proof {
        rounding_stays_below(size as nat);
    }
    let rounded: i64 = nearest_single(size as u128) as i64;
    if token < 0 {
        -rounded
    } else {
        rounded
    }
}

/// Product of dimensions.
pub open spec fn product(shape: Seq<i32>) -> int
    decreases shape.len(),
{
    if shape.len() == 0 {
        1
    } else {
        product(shape.drop_last()) * shape.last()
    }
}

/// Whether the product of dimensions can be formed with machine integers, from the left.
pub open spec fn product_fits(shape: Seq<i32>) -> bool {
    forall|count: int|
        0 <= count <= shape.len() ==> i32::MIN <= #[trigger] product(shape.take(count)) <= i32::MAX
}

/// The first reason not to merge.
pub open spec fn merge_problem(
    image_token: i32,
    feature_shape: Seq<i32>,
    embedding_shape: Seq<i32>,
    input_ids: Seq<i32>,
) -> Option<MergeError> {
    if feature_shape.len() < 2 {
        Some(MergeError::FeatureRank)
    } else if embedding_shape.len() != 3 {
        Some(MergeError::EmbeddingRank)
    } else if embedding_shape[2] != feature_shape.last() {
        Some(MergeError::WidthMismatch)
    } else if occurrences(input_ids, image_token) != product(feature_shape.drop_last()) {
        Some(MergeError::CountMismatch)
    } else {
        None
    }
}

/// Where the embedding of token `i` comes from: the feature that follows those of the image tokens
/// before it, or the text.
pub open spec fn feature_of(input_ids: Seq<i32>, image_token: i32, i: int) -> Option<usize> {
    if input_ids[i] == image_token {
        Some(occurrences(input_ids.take(i), image_token) as usize)
    } else {
        None
    }
}

fn shape_product(shape: &[i32], count: usize) -> (result: i32)
    requires
        count <= shape@.len(),
        product_fits(shape@.take(count as int)),
    ensures
        result == product(shape@.take(count as int)),
{
    let mut result: i32 = 1;
    let mut index: usize = 0;
    let ghost front = shape@.take(count as int);
    while index < count
        invariant
            index <= count <= shape@.len(),
            front == shape@.take(count as int),
            product_fits(front),
            result == product(front.take(index as int)),
        decreases count - index,
    {
        proof {
            assert(front.take(index + 1).drop_last() == front.take(index as int));
            assert(front.take(index + 1).last() == shape@[index as int]);
            assert(i32::MIN <= product(front.take(index + 1)) <= i32::MAX);
        }
        result = result * shape[index];
        index = index + 1;
    }
    assert(front.take(index as int) == front);
    result
}

/// For every token of the flattened input, the row of the flattened features that replaces its
/// embedding, if it is an image token. The image token must not be rounded out of its range.
pub fn merge_llava(
    image_token_id: i32,
    feature_shape: &[i32],
    embedding_shape: &[i32],
    input_ids: &[i32],
) -> (result: Result<Vec<Option<usize>>, MergeError>)
    requires
        feature_shape@.len() >= 1 ==> product_fits(feature_shape@.drop_last()),
        in_single_precision(image_token_id) <= i32::MAX,
    ensures
        match result {
            Ok(sources) => {
                &&& merge_problem(
                    compared_token(image_token_id),
                    feature_shape@,
                    embedding_shape@,
                    input_ids@,
                ) is None
                &&& sources@.len() == input_ids@.len()
                &&& forall|i: int|
                    0 <= i < sources@.len() ==> #[trigger] sources@[i] == feature_of(
                        input_ids@,
                        compared_token(image_token_id),
                        i,
                    )
            },
            Err(problem) => merge_problem(
                compared_token(image_token_id),
                feature_shape@,
                embedding_shape@,
                input_ids@,
            ) == Some(problem),
        },
{
    let rank: usize = feature_shape.len();
    if rank < 2 {
        return Err(MergeError::FeatureRank);
    }
    if embedding_shape.len() != 3 {
        return Err(MergeError::EmbeddingRank);
    }
    if embedding_shape[2] != feature_shape[rank - 1] {
        return Err(MergeError::WidthMismatch);
    }
    assert(feature_shape@.take(rank - 1) == feature_shape@.drop_last());
    let rows: i32 = shape_product(feature_shape, rank - 1);
    let image_token: i32 = single_precision(image_token_id) as i32;
    let mut sources: Vec<Option<usize>> = Vec::new();
    let mut images: usize = 0;
    let mut index: usize = 0;
    while index < input_ids.len()
        invariant
            index <= input_ids@.len(),
            images == occurrences(input_ids@.take(index as int), image_token),
            images <= index,
            sources@.len() == index,
            forall|i: int|
                0 <= i < index ==> #[trigger] sources@[i] == feature_of(
                    input_ids@,
                    image_token,
                    i,
                ),
        decreases input_ids@.len() - index,
    {
        proof {
            assert(input_ids@.take(index + 1).drop_last() == input_ids@.take(index as int));
            assert(input_ids@.take(index + 1).last() == input_ids@[index as int]);
        }
        if input_ids[index] == image_token {
            sources.push(Some(images));
            images = images + 1;
        } else {
            sources.push(None);
        }
        index = index + 1;
    }
    assert(input_ids@.take(index as int) == input_ids@);
    if rows < 0 || images != rows as usize {
        return Err(MergeError::CountMismatch);
    }
    Ok(sources)
}

/// Every feature goes to exactly one image token, in token order: the image tokens before the end
/// of a prefix take exactly the features before its count.
pub proof fn features_are_used_in_order(input_ids: Seq<i32>, image_token: i32, feature: nat)
    requires
        feature < occurrences(input_ids, image_token),
        input_ids.len() <= usize::MAX,
    ensures
        exists|i: int|
            0 <= i < input_ids.len() && #[trigger] feature_of(input_ids, image_token, i) == Some(
                feature as usize,
            ),
        forall|i: int, j: int|
            0 <= i < j < input_ids.len() && #[trigger] feature_of(
                input_ids,
                image_token,
                i,
            ) is Some && #[trigger] feature_of(input_ids, image_token, j) is Some ==> feature_of(
                input_ids,
                image_token,
                i,
            )->0 < feature_of(input_ids, image_token, j)->0,
    decreases input_ids.len(),
{
    feature_has_token(input_ids, image_token, feature);
    assert forall|i: int, j: int|
        0 <= i < j < input_ids.len() && #[trigger] feature_of(input_ids, image_token, i) is Some
            && #[trigger] feature_of(input_ids, image_token, j) is Some implies feature_of(
        input_ids,
        image_token,
        i,
    )->0 < feature_of(input_ids, image_token, j)->0 by {
        count_grows(input_ids, image_token, i, j);
    }
}

/// An image token raises the count of those after it.
proof fn count_grows(input_ids: Seq<i32>, image_token: i32, i: int, j: int)
    requires
        0 <= i < j <= input_ids.len(),
        input_ids[i] == image_token,
    ensures
        occurrences(input_ids.take(i), image_token) < occurrences(input_ids.take(j), image_token)
            <= j,
    decreases j,
{
    assert(input_ids.take(j).drop_last() == input_ids.take(j - 1));
    counts_are_bounded(input_ids.take(j), image_token);
    if i < j - 1 {
        count_grows(input_ids, image_token, i, j - 1);
    }
}

proof fn counts_are_bounded(tokens: Seq<i32>, token: i32)
    ensures
        occurrences(tokens, token) <= tokens.len(),
    decreases tokens.len(),
{
    if tokens.len() > 0 {
        counts_are_bounded(tokens.drop_last(), token);
    }
}

proof fn feature_has_token(input_ids: Seq<i32>, image_token: i32, feature: nat)
    requires
        feature < occurrences(input_ids, image_token),
        input_ids.len() <= usize::MAX,
    ensures
        exists|i: int|
            0 <= i < input_ids.len() && #[trigger] feature_of(input_ids, image_token, i) == Some(
                feature as usize,
            ),
    decreases input_ids.len(),
{
    let front = input_ids.drop_last();
    let last = input_ids.len() - 1;
    counts_are_bounded(front, image_token);
    if feature < occurrences(front, image_token) {
        feature_has_token(front, image_token, feature);
        let i = choose|i: int|
            0 <= i < front.len() && #[trigger] feature_of(front, image_token, i) == Some(
                feature as usize,
            );
        assert(front.take(i) == input_ids.take(i));
        assert(feature_of(input_ids, image_token, i) == Some(feature as usize));
    } else {
        assert(input_ids.take(last) == front);
        assert(feature_of(input_ids, image_token, last) == Some(feature as usize));
    }
}

} // verus!
