//! Names and layouts of a checkpoint's tensors.

use vstd::prelude::*;
use crate::qwen3_next::{quantization_of, KVCacheMode};
use crate::qwen4::config::Qwen4Config;
use crate::text::{chars_of, matches_at, same_text, stands_at};

verus! {

/// Whether `part` stands somewhere in `text`.
pub open spec fn holds_part(text: Seq<char>, part: Seq<char>) -> bool {
    exists|at: int| #[trigger] stands_at(text, part, at)
}

/// Whether `part` stands somewhere in `text`.
fn contains_part(text: &str, part: &str) -> (found: bool)
    ensures
        found == holds_part(text@, part@),
{
    let chars: Vec<char> = chars_of(text);
    let sought: Vec<char> = chars_of(part);
    let length: usize = chars.len();
    let mut at: usize = 0;
    while at < length
        invariant
            chars@ == text@,
            sought@ == part@,
            length == chars@.len(),
            at <= length,
            forall|i: int| 0 <= i < at ==> !#[trigger] stands_at(text@, part@, i),
        decreases length - at,
    {
        if matches_at(&chars, &sought, at) {
            assert(stands_at(text@, part@, at as int));
            return true;
        }
        at = at + 1;
    }
    let found: bool = matches_at(&chars, &sought, length);
    assert(found == stands_at(text@, part@, length as int));
    found
}

/// Whether `text` begins with `part`.
fn begins_with(text: &str, part: &str) -> (found: bool)
    ensures
        found == stands_at(text@, part@, 0),
{
    matches_at(&chars_of(text), &chars_of(part), 0)
}

/// Whether a tensor of the checkpoint belongs to the language model. The rows of the n-gram table
/// stay on disk.
pub open spec fn language_tensor(name: Seq<char>) -> bool {
    (stands_at(name, "language_model."@, 0) || stands_at(name, "model.language_model."@, 0)
        || stands_at(name, "lm_head."@, 0)) && !holds_part(name, ".ngram_embedding.shards."@)
}

/// Whether a tensor of the checkpoint belongs to the language model.
pub fn is_language_tensor(name: &str) -> (kept: bool)
    ensures
        kept == language_tensor(name@),
{
    (begins_with(name, "language_model.") || begins_with(name, "model.language_model.")
        || begins_with(name, "lm_head.")) && !contains_part(name, ".ngram_embedding.shards.")
}

/// The name of a tensor without the nesting of the checkpoint.
pub open spec fn unnested_name(name: Seq<char>) -> Seq<char> {
    if stands_at(name, "model.language_model."@, 0) {
        "model."@ + name.skip("model.language_model."@.len() as int)
    } else if stands_at(name, "language_model."@, 0) {
        name.skip("language_model."@.len() as int)
    } else {
        name
    }
}

/// The name of a tensor without the nesting of the checkpoint.
pub fn normalize_weight_name(name: &str) -> (normalized: String)
    ensures
        normalized@ == unnested_name(name@),
{
    proof {
        reveal_strlit("model.language_model.");
        reveal_strlit("language_model.");
    }
    if begins_with(name, "model.language_model.") {
        let length: usize = name.unicode_len();
        let rest: &str = name.substring_char(21, length);
        assert(rest@ == name@.skip(21));
        let mut normalized: String = "model.".to_owned();
        normalized.append(rest);
        normalized
    } else if begins_with(name, "language_model.") {
        let length: usize = name.unicode_len();
        let rest: &str = name.substring_char(15, length);
        assert(rest@ == name@.skip(15));
        rest.to_owned()
    } else {
        name.to_owned()
    }
}

/// Whether the shape of a convolution kernel is still in its raw layout: `[out, 1, width]`, where
/// `[out, width, 1]` is wanted. A shape of fewer than three dimensions carries no layout.
pub open spec fn raw_conv1d_layout(shape: Seq<i32>) -> bool {
    shape.len() >= 3 && shape.last() != 1
}

/// Whether the shape of a convolution kernel is still in its raw layout.
pub fn is_raw_conv1d_layout(shape: &[i32]) -> (raw: bool)
    ensures
        raw == raw_conv1d_layout(shape@),
{
    shape.len() >= 3 && shape[shape.len() - 1] != 1
}

/// A tensor of the checkpoint.
#[derive(Debug)]
pub struct Weight {
    pub name: String,
    /// What the caller knows the tensor by.
    pub handle: u64,
    pub shape: Vec<i32>,
    /// Whether the last two axes are to be swapped.
    pub swapped: bool,
}

/// What is known of a tensor.
pub struct WeightView {
    pub name: Seq<char>,
    pub handle: u64,
    pub shape: Seq<i32>,
    pub swapped: bool,
}

impl View for Weight {
    type V = WeightView;

    open spec fn view(&self) -> WeightView {
        WeightView {
            name: self.name@,
            handle: self.handle,
            shape: self.shape@,
            swapped: self.swapped,
        }
    }
}

/// What is known of tensors.
pub open spec fn weight_views(weights: Seq<Weight>) -> Seq<WeightView> {
    weights.map_values(|weight: Weight| weight@)
}

/// A shape with its last two axes swapped.
pub open spec fn swapped_shape(shape: Seq<i32>) -> Seq<i32> {
    shape.update(shape.len() - 1, shape[shape.len() - 2]).update(
        shape.len() - 2,
        shape[shape.len() - 1],
    )
}

/// A tensor in the wanted layout.
pub open spec fn laid_out(weight: WeightView) -> WeightView {
    if holds_part(weight.name, "conv1d.weight"@) && raw_conv1d_layout(weight.shape) {
        WeightView { shape: swapped_shape(weight.shape), swapped: !weight.swapped, ..weight }
    } else {
        weight
    }
}

/// Whether a tensor is kept: a head that shares its weights with the embedding is not.
pub open spec fn kept_weight(weight: WeightView, tie_word_embeddings: bool) -> bool {
    !(tie_word_embeddings && weight.name == "lm_head.weight"@)
}

/// The tensors that are kept, in the wanted layout.
pub open spec fn sanitized(weights: Seq<WeightView>, tie_word_embeddings: bool) -> Seq<WeightView>
    decreases weights.len(),
{
    if weights.len() == 0 {
        Seq::empty()
    } else {
        let rest = sanitized(weights.drop_last(), tie_word_embeddings);
        if kept_weight(weights.last(), tie_word_embeddings) {
            rest.push(laid_out(weights.last()))
        } else {
            rest
        }
    }
}

/// Drops the head that shares the embedding's weights and brings raw convolution kernels into the
/// wanted layout.
pub fn sanitize_weights(weights: Vec<Weight>, tie_word_embeddings: bool) -> (result: Vec<Weight>)
    ensures
        weight_views(result@) == sanitized(weight_views(weights@), tie_word_embeddings),
{
    let mut result: Vec<Weight> = Vec::new();
    let mut index: usize = 0;
    assert(weight_views(result@) == Seq::<WeightView>::empty());
    while index < weights.len()
        invariant
            index <= weights@.len(),
            weight_views(result@) == sanitized(
                weight_views(weights@).take(index as int),
                tie_word_embeddings,
            ),
        decreases weights@.len() - index,
    {
        let weight: &Weight = &weights[index];
        let ghost views = weight_views(weights@);
        let ghost before = result@;
        proof {
            assert(views.take(index + 1).drop_last() == views.take(index as int));
            assert(views.take(index + 1).last() == weight@);
        }
        if !(tie_word_embeddings && same_text(weight.name.as_str(), "lm_head.weight")) {
            let copy: Weight = lay_out(weight);
            result.push(copy);
            assert(weight_views(result@) == weight_views(before).push(laid_out(weight@)));
        }
        index = index + 1;
    }
    assert(weight_views(weights@).take(index as int) == weight_views(weights@));
    result
}

/// Brings one tensor into the wanted layout.
fn lay_out(weight: &Weight) -> (result: Weight)
    ensures
        result@ == laid_out(weight@),
{
    let mut shape: Vec<i32> = weight.shape.clone();
    assert(shape@ == weight.shape@);
    let mut swapped: bool = weight.swapped;
    if contains_part(weight.name.as_str(), "conv1d.weight") && is_raw_conv1d_layout(
        shape.as_slice(),
    ) {
        let rank: usize = shape.len();
        let last: i32 = shape[rank - 1];
        let inner: i32 = shape[rank - 2];
        shape.set(rank - 1, inner);
        shape.set(rank - 2, last);
        swapped = !swapped;
        assert(shape@ == swapped_shape(weight.shape@));
    }
    Weight { name: weight.name.clone(), handle: weight.handle, shape, swapped }
}

/// Whether every convolution kernel is depthwise: raw as `[.., 1, width]`, or already laid out.
pub open spec fn depthwise(weights: Seq<WeightView>) -> bool {
    forall|i: int|
        0 <= i < weights.len() && holds_part(#[trigger] weights[i].name, "conv1d.weight"@)
            && raw_conv1d_layout(weights[i].shape) ==> weights[i].shape[weights[i].shape.len() - 2]
            == 1
}

/// Tensors that are in the wanted layout stay as they are: doing it twice is doing it once.
pub proof fn sanitizing_again_changes_nothing(weights: Seq<WeightView>, tie_word_embeddings: bool)
    requires
        depthwise(weights),
    ensures
        sanitized(sanitized(weights, tie_word_embeddings), tie_word_embeddings) == sanitized(
            weights,
            tie_word_embeddings,
        ),
    decreases weights.len(),
{
    if weights.len() > 0 {
        let front = weights.drop_last();
        let last = weights.last();
        assert(depthwise(front)) by {
            assert forall|i: int|
                0 <= i < front.len() && holds_part(#[trigger] front[i].name, "conv1d.weight"@)
                    && raw_conv1d_layout(front[i].shape) implies front[i].shape[front[i].shape.len()
                - 2] == 1 by {
                assert(weights[i] == front[i]);
            }
        }
        sanitizing_again_changes_nothing(front, tie_word_embeddings);
        let once = sanitized(front, tie_word_embeddings);
        if kept_weight(last, tie_word_embeddings) {
            let laid = laid_out(last);
            assert(once.push(laid).drop_last() == once);
            assert(weights[weights.len() - 1] == last);
            assert(laid_out(laid) == laid);
        }
    }
}

/// Either nesting of a name is undone.
pub proof fn nestings_agree(rest: Seq<char>)
    ensures
        unnested_name("model.language_model."@ + rest) == "model."@ + rest,
        unnested_name("language_model."@ + rest) == rest,
{
    reveal_strlit("model.language_model.");
    reveal_strlit("language_model.");
    let outer = "model.language_model."@ + rest;
    let inner = "language_model."@ + rest;
    assert(outer.subrange(0, 21) == "model.language_model."@);
    assert(outer.skip(21) == rest);
    assert(inner.subrange(0, 15) == "language_model."@);
    assert(inner.skip(15) == rest);
    if stands_at(inner, "model.language_model."@, 0) {
        assert(inner.subrange(0, 21)[0] == inner[0]);
        assert(inner[0] == 'l');
        assert("model.language_model."@[0] == 'm');
    }
}

/// The last place of a tensor of this name, or minus one.
pub open spec fn last_place(weights: Seq<WeightView>, name: Seq<char>) -> int
    decreases weights.len(),
{
    if weights.len() == 0 {
        -1
    } else if weights.last().name == name {
        weights.len() - 1
    } else {
        last_place(weights.drop_last(), name)
    }
}

/// Tensors with one more, which replaces one of the same name.
pub open spec fn entered(weights: Seq<WeightView>, weight: WeightView) -> Seq<WeightView> {
    let place = last_place(weights, weight.name);
    if place >= 0 {
        weights.update(place, weight)
    } else {
        weights.push(weight)
    }
}

/// Tensors under their names without nesting, each name once.
pub open spec fn unnested(weights: Seq<WeightView>) -> Seq<WeightView>
    decreases weights.len(),
{
    if weights.len() == 0 {
        Seq::empty()
    } else {
        entered(
            unnested(weights.drop_last()),
            WeightView { name: unnested_name(weights.last().name), ..weights.last() },
        )
    }
}

/// Whether every name stands once.
pub open spec fn distinct_names(weights: Seq<WeightView>) -> bool {
    forall|i: int, j: int|
        0 <= i < j < weights.len() ==> #[trigger] weights[i].name != #[trigger] weights[j].name
}

proof fn place_is_last(weights: Seq<WeightView>, name: Seq<char>)
    ensures
        -1 <= last_place(weights, name) < weights.len(),
        last_place(weights, name) >= 0 ==> weights[last_place(weights, name)].name == name,
        forall|i: int|
            last_place(weights, name) < i < weights.len() ==> #[trigger] weights[i].name != name,
    decreases weights.len(),
{
    if weights.len() > 0 && weights.last().name != name {
        place_is_last(weights.drop_last(), name);
        assert forall|i: int| last_place(weights, name) < i < weights.len() implies
            #[trigger] weights[i].name != name by {
            if i < weights.len() - 1 {
                assert(weights.drop_last()[i] == weights[i]);
            }
        }
    }
}

/// However the checkpoint nests its tensors, every name comes out once.
pub proof fn unnested_names_are_distinct(weights: Seq<WeightView>)
    ensures
        distinct_names(unnested(weights)),
    decreases weights.len(),
{
    if weights.len() > 0 {
        let front = unnested(weights.drop_last());
        unnested_names_are_distinct(weights.drop_last());
        place_is_last(front, unnested_name(weights.last().name));
    }
}

/// Enters a tensor, in place of one of the same name.
fn enter_weight(weights: &mut Vec<Weight>, weight: Weight)
    ensures
        weight_views(final(weights)@) == entered(weight_views(old(weights)@), weight@),
{
    let ghost before = weights@;
    let ghost views = weight_views(before);
    let mut at: usize = weights.len();
    assert(views.take(at as int) == views);
    while at > 0
        invariant
            at <= weights@.len(),
            weights@ == before,
            before == old(weights)@,
            views == weight_views(before),
            last_place(views, weight@.name) == last_place(views.take(at as int), weight@.name),
        decreases at,
    {
        proof {
            assert(views.take(at as int).drop_last() == views.take(at - 1));
            assert(views.take(at as int).last() == before[at - 1]@);
        }
        if same_text(weights[at - 1].name.as_str(), weight.name.as_str()) {
            let ghost view = weight@;
            weights.set(at - 1, weight);
            assert(weight_views(weights@) == views.update(at - 1, view));
            return ;
        }
        at = at - 1;
    }
    let ghost view = weight@;
    weights.push(weight);
    assert(weight_views(weights@) == views.push(view));
}

/// Brings the tensors of the language model under their own names, drops the head that shares the
/// embedding's weights, and lays out convolution kernels.
pub fn sanitize_language_model_weights(weights: Vec<Weight>, tie_word_embeddings: bool) -> (result:
    Vec<Weight>)
    ensures
        weight_views(result@) == sanitized(
            unnested(weight_views(weights@)),
            tie_word_embeddings,
        ),
{
    let mut target: Vec<Weight> = Vec::new();
    let mut index: usize = 0;
    assert(weight_views(target@) == Seq::<WeightView>::empty());
    while index < weights.len()
        invariant
            index <= weights@.len(),
            weight_views(target@) == unnested(weight_views(weights@).take(index as int)),
        decreases weights@.len() - index,
    {
        let weight: &Weight = &weights[index];
        let shape: Vec<i32> = weight.shape.clone();
        assert(shape@ == weight.shape@);
        proof {
            let views = weight_views(weights@);
            assert(views.take(index + 1).drop_last() == views.take(index as int));
            assert(views.take(index + 1).last() == weight@);
        }
        enter_weight(
            &mut target,
            Weight {
                name: normalize_weight_name(weight.name.as_str()),
                handle: weight.handle,
                shape,
                swapped: weight.swapped,
            },
        );
        index = index + 1;
    }
    assert(weight_views(weights@).take(index as int) == weight_views(weights@));
    sanitize_weights(target, tie_word_embeddings)
}

/// Brings the tensors of the language model that a checkpoint holds into the form that the model
/// is built from. There must be some.
pub fn load_language_model_weights(weights: Vec<Weight>, tie_word_embeddings: bool) -> (result:
    Result<Vec<Weight>, LoadError>)
    ensures
        match result {
            Ok(result) => {
                &&& weights@.len() > 0
                &&& weight_views(result@) == sanitized(
                    unnested(weight_views(weights@)),
                    tie_word_embeddings,
                )
            },
            Err(error) => error == LoadError::NoTensors && weights@.len() == 0,
        },
{
    if weights.len() == 0 {
        return Err(LoadError::NoTensors);
    }
    Ok(sanitize_language_model_weights(weights, tie_word_embeddings))
}

/// Why a checkpoint cannot be loaded.
#[derive(Debug, Clone, Copy, PartialEq, Eq, Structural)]
pub enum LoadError {
    /// Only an eight-bit floating point cache is supported.
    CacheMode,
    /// The rows of the n-gram table must hold groups of thirty-two with four bits.
    NgramQuantization,
    /// No tensor of the language model was found.
    NoTensors,
    /// A layer embeds n-grams, and there is no table of them.
    NoNgramTable,
}

/// The n-gram table of a checkpoint.
#[derive(Debug)]
pub struct NGramTableSpec {
    pub tensor_prefix: String,
    pub shard_count: usize,
    pub embedding_dim: usize,
    pub group_size: usize,
}

/// Checks the cache mode.
pub fn check_cache_mode(mode: KVCacheMode) -> (result: Result<(), LoadError>)
    ensures
        result == if mode == KVCacheMode::Fp8 {
            Ok::<(), LoadError>(())
        } else {
            Err(LoadError::CacheMode)
        },
{
    if mode == KVCacheMode::Fp8 {
        Ok(())
    } else {
        Err(LoadError::CacheMode)
    }
}

/// The n-gram table that a configuration asks for.
pub fn ngram_table_spec(config: &Qwen4Config) -> (result: Result<NGramTableSpec, LoadError>)
    requires
        config.ngram_size >= 2,
        config.heads_per_ngram >= 1,
        (config.ngram_size - 1) * config.heads_per_ngram <= usize::MAX,
    ensures
        match result {
            Ok(table) => {
                &&& quantization_of(
                    config.quantization,
                    "model.layers.1.ple.ple_embedding.ngram_embedding.shards.0"@,
                ) == (32i32, 4i32)
                &&& table.tensor_prefix@
                    == "language_model.model.layers.1.ple.ple_embedding.ngram_embedding.shards"@
                &&& table.shard_count == config.split_ngram_parts
                &&& table.embedding_dim == config.ple_embed_dim as int / ((config.ngram_size - 1)
                    * config.heads_per_ngram)
                &&& table.group_size == 32
            },
            Err(error) => {
                &&& error == LoadError::NgramQuantization
                &&& quantization_of(
                    config.quantization,
                    "model.layers.1.ple.ple_embedding.ngram_embedding.shards.0"@,
                ) != (32i32, 4i32)
            },
        },
{
    let (group_size, bits): (i32, i32) = config.quant_params(
        "model.layers.1.ple.ple_embedding.ngram_embedding.shards.0",
    );
    if !(group_size == 32 && bits == 4) {
        return Err(LoadError::NgramQuantization);
    }
    assert((config.ngram_size - 1) * config.heads_per_ngram >= 1) by (nonlinear_arith)
        requires
            config.ngram_size >= 2,
            config.heads_per_ngram >= 1,
    ;
    let heads: usize = (config.ngram_size - 1) * config.heads_per_ngram;
    Ok(
        NGramTableSpec {
            tensor_prefix:
                "language_model.model.layers.1.ple.ple_embedding.ngram_embedding.shards".to_owned(),
            shard_count: config.split_ngram_parts,
            embedding_dim: config.ple_embed_dim / heads,
            group_size: 32,
        },
    )
}

} // verus!
