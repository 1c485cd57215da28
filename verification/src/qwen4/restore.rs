//! Checking a saved sequence state and putting it back.

use vstd::prelude::*;
use crate::qwen4::state::{
    copy_integers, copy_tensor, dense_views, kind_number, optional_view, snapshot_family,
    StateTensor, TensorView,
};
use crate::qwen4::state_names::{
    allowed_in_layer, is_allowed_in_layer, layer_name, layer_part_name, LayerKind, LayerPart,
};
use crate::text::same_text;
use crate::tokens::same_tokens;

verus! {

/// A saved sequence state. A paged tensor is `None` where its pages cannot be joined.
#[derive(Debug)]
pub struct StateSnapshot {
    pub family: String,
    pub token_len: usize,
    pub dense: Vec<(String, StateTensor)>,
    pub paged: Vec<(String, Option<StateTensor>)>,
}

/// What a saved sequence state holds.
pub struct SnapshotView {
    pub family: Seq<char>,
    pub token_len: nat,
    pub dense: Seq<(Seq<char>, TensorView)>,
    pub paged: Seq<(Seq<char>, Option<TensorView>)>,
}

pub open spec fn joined_views(entries: Seq<(String, Option<StateTensor>)>) -> Seq<
    (Seq<char>, Option<TensorView>),
> {
    entries.map_values(|entry: (String, Option<StateTensor>)| (entry.0@, optional_view(entry.1)))
}

impl View for StateSnapshot {
    type V = SnapshotView;

    open spec fn view(&self) -> SnapshotView {
        SnapshotView {
            family: self.family@,
            token_len: self.token_len as nat,
            dense: dense_views(self.dense@),
            paged: joined_views(self.paged@),
        }
    }
}

/// The first entry of this name.
pub open spec fn named<T>(entries: Seq<(Seq<char>, T)>, name: Seq<char>) -> Option<T>
    decreases entries.len(),
{
    if entries.len() == 0 {
        None
    } else if entries[0].0 == name {
        Some(entries[0].1)
    } else {
        named(entries.skip(1), name)
    }
}

/// Whether an entry has this name.
pub open spec fn has_name<T>(entries: Seq<(Seq<char>, T)>, name: Seq<char>) -> bool {
    exists|i: int| 0 <= i < entries.len() && #[trigger] entries[i].0 == name
}

/// An entry is found exactly if one has the name.
pub proof fn found_where_named<T>(entries: Seq<(Seq<char>, T)>, name: Seq<char>)
    ensures
        named(entries, name) is Some <==> has_name(entries, name),
    decreases entries.len(),
{
    if entries.len() > 0 {
        let rest = entries.skip(1);
        found_where_named(rest, name);
        if has_name(rest, name) {
            let i = choose|i: int| 0 <= i < rest.len() && #[trigger] rest[i].0 == name;
            assert(entries[i + 1].0 == name);
        }
        if has_name(entries, name) && entries[0].0 != name {
            let i = choose|i: int| 0 <= i < entries.len() && #[trigger] entries[i].0 == name;
            assert(rest[i - 1].0 == name);
        }
    }
}

/// Why a saved state cannot be put back. Names are texts of type `T`.
#[derive(Debug)]
pub enum RestoreProblem<T> {
    Family,
    TokenLength,
    MissingField(T),
    NotScalar(T),
    LayerCount,
    Layout,
    MissingAttention,
    Variant(usize),
    Offset(usize),
    MissingConvState(usize),
    MissingRecurrentState(usize),
    LinearLayout(usize),
    MissingPleConvState(usize),
    MissingPleHistory(usize),
    PleLayout(usize),
    MissingKeys(usize),
    MissingValues(usize),
    AttentionLayout(usize),
    MissingAuxiliaryKeys(usize),
    Position,
    NotTruncatable,
}

pub type RestoreError = RestoreProblem<String>;

pub type RestoreErrorView = RestoreProblem<Seq<char>>;

impl View for RestoreProblem<String> {
    type V = RestoreProblem<Seq<char>>;

    open spec fn view(&self) -> RestoreProblem<Seq<char>> {
        match *self {
            RestoreProblem::Family => RestoreProblem::Family,
            RestoreProblem::TokenLength => RestoreProblem::TokenLength,
            RestoreProblem::MissingField(name) => RestoreProblem::MissingField(name@),
            RestoreProblem::NotScalar(name) => RestoreProblem::NotScalar(name@),
            RestoreProblem::LayerCount => RestoreProblem::LayerCount,
            RestoreProblem::Layout => RestoreProblem::Layout,
            RestoreProblem::MissingAttention => RestoreProblem::MissingAttention,
            RestoreProblem::Variant(index) => RestoreProblem::Variant(index),
            RestoreProblem::Offset(index) => RestoreProblem::Offset(index),
            RestoreProblem::MissingConvState(index) => RestoreProblem::MissingConvState(index),
            RestoreProblem::MissingRecurrentState(index) => RestoreProblem::MissingRecurrentState(
                index,
            ),
            RestoreProblem::LinearLayout(index) => RestoreProblem::LinearLayout(index),
            RestoreProblem::MissingPleConvState(index) => RestoreProblem::MissingPleConvState(index),
            RestoreProblem::MissingPleHistory(index) => RestoreProblem::MissingPleHistory(index),
            RestoreProblem::PleLayout(index) => RestoreProblem::PleLayout(index),
            RestoreProblem::MissingKeys(index) => RestoreProblem::MissingKeys(index),
            RestoreProblem::MissingValues(index) => RestoreProblem::MissingValues(index),
            RestoreProblem::AttentionLayout(index) => RestoreProblem::AttentionLayout(index),
            RestoreProblem::MissingAuxiliaryKeys(index) => RestoreProblem::MissingAuxiliaryKeys(
                index,
            ),
            RestoreProblem::Position => RestoreProblem::Position,
            RestoreProblem::NotTruncatable => RestoreProblem::NotTruncatable,
        }
    }
}

/// Finds a tensor that was saved whole.
fn find_dense<'a>(entries: &'a Vec<(String, StateTensor)>, name: &str) -> (found: Option<
    &'a StateTensor,
>)
    ensures
        match found {
            Some(tensor) => named(dense_views(entries@), name@) == Some(tensor@),
            None => named(dense_views(entries@), name@) is None,
        },
{
    let ghost views = dense_views(entries@);
    let mut index: usize = 0;
    assert(views.skip(0) == views);
    while index < entries.len()
        invariant
            index <= entries@.len(),
            views == dense_views(entries@),
            named(views, name@) == named(views.skip(index as int), name@),
        decreases entries@.len() - index,
    {
        proof {
            assert(views.skip(index as int)[0] == views[index as int]);
            assert(views.skip(index as int).skip(1) == views.skip(index + 1));
        }
        if same_text(entries[index].0.as_str(), name) {
            return Some(&entries[index].1);
        }
        index = index + 1;
    }
    None
}

/// Finds a tensor that was saved in pages.
fn find_paged<'a>(entries: &'a Vec<(String, Option<StateTensor>)>, name: &str) -> (found: Option<
    &'a Option<StateTensor>,
>)
    ensures
        match found {
            Some(tensor) => named(joined_views(entries@), name@) == Some(optional_view(*tensor)),
            None => named(joined_views(entries@), name@) is None,
        },
{
    let ghost views = joined_views(entries@);
    let mut index: usize = 0;
    assert(views.skip(0) == views);
    while index < entries.len()
        invariant
            index <= entries@.len(),
            views == joined_views(entries@),
            named(views, name@) == named(views.skip(index as int), name@),
        decreases entries@.len() - index,
    {
        proof {
            assert(views.skip(index as int)[0] == views[index as int]);
            assert(views.skip(index as int).skip(1) == views.skip(index + 1));
        }
        if same_text(entries[index].0.as_str(), name) {
            return Some(&entries[index].1);
        }
        index = index + 1;
    }
    None
}

/// The integer that was saved under a name.
pub open spec fn saved_integer(snapshot: SnapshotView, name: Seq<char>) -> Result<
    i32,
    RestoreErrorView,
> {
    match named(snapshot.dense, name) {
        None => Err(RestoreProblem::MissingField(name)),
        Some(tensor) => if tensor.contents.len() != 1 {
            Err(RestoreProblem::NotScalar(name))
        } else {
            Ok(tensor.contents[0])
        },
    }
}

/// What was saved in pages under a name and can be joined, else what was saved whole.
pub open spec fn saved_pages(snapshot: SnapshotView, name: Seq<char>) -> Option<TensorView> {
    match named(snapshot.paged, name) {
        Some(Some(tensor)) => Some(tensor),
        _ => named(snapshot.dense, name),
    }
}

/// Whether a result is the one that is specified.
pub open spec fn agrees(result: Result<i32, RestoreError>, expected: Result<i32, RestoreErrorView>) -> bool {
    match result {
        Ok(value) => expected == Ok::<i32, RestoreErrorView>(value),
        Err(error) => expected == Err::<i32, RestoreErrorView>(error@),
    }
}

impl StateSnapshot {
    /// The integer that was saved under a name.
    pub fn snapshot_i32(&self, name: &str) -> (result: Result<i32, RestoreError>)
        ensures
            agrees(result, saved_integer(self@, name@)),
    {
        match find_dense(&self.dense, name) {
            None => Err(RestoreProblem::MissingField(name.to_owned())),
            Some(tensor) => if tensor.contents.len() != 1 {
                Err(RestoreProblem::NotScalar(name.to_owned()))
            } else {
                Ok(tensor.contents[0])
            },
        }
    }

    fn layer_i32(&self, index: usize, part: LayerPart) -> (result: Result<i32, RestoreError>)
        ensures
            agrees(result, saved_integer(self@, layer_name(index as nat, part))),
    {
        self.snapshot_i32(layer_part_name(index, part).as_str())
    }

    fn layer_dense(&self, index: usize, part: LayerPart) -> (found: Option<&StateTensor>)
        ensures
            match found {
                Some(tensor) => named(self@.dense, layer_name(index as nat, part)) == Some(tensor@),
                None => named(self@.dense, layer_name(index as nat, part)) is None,
            },
    {
        find_dense(&self.dense, layer_part_name(index, part).as_str())
    }

    fn layer_pages(&self, index: usize, part: LayerPart) -> (found: Option<&StateTensor>)
        ensures
            match found {
                Some(tensor) => saved_pages(self@, layer_name(index as nat, part)) == Some(tensor@),
                None => saved_pages(self@, layer_name(index as nat, part)) is None,
            },
    {
        let name: String = layer_part_name(index, part);
        match find_paged(&self.paged, name.as_str()) {
            Some(Some(tensor)) => Some(tensor),
            _ => find_dense(&self.dense, name.as_str()),
        }
    }
}

/// Whether names stand once in a list.
pub open spec fn names_once<T>(entries: Seq<(Seq<char>, T)>) -> bool {
    forall|i: int, j: int|
        0 <= i < j < entries.len() ==> #[trigger] entries[i].0 != #[trigger] entries[j].0
}

/// Whether a model with these layers may have saved a tensor under this name.
pub open spec fn expected_name(
    snapshot: SnapshotView,
    kinds: Seq<LayerKind>,
    name: Seq<char>,
) -> bool {
    ||| name == "meta.layer_count"@
    ||| name == "mrope.position"@
    ||| name == "mrope.rope_delta"@
    ||| name == "mrope.position_ids"@ && has_name(snapshot.dense, name)
    ||| exists|index: nat|
        index < kinds.len() && #[trigger] allowed_in_layer(index, kinds[index as int], name)
}

/// Whether every tensor stands once and under a name that the model knows.
pub open spec fn names_match(snapshot: SnapshotView, kinds: Seq<LayerKind>) -> bool {
    &&& names_once(snapshot.dense)
    &&& names_once(snapshot.paged)
    &&& forall|i: int|
        0 <= i < snapshot.dense.len() ==> expected_name(
            snapshot,
            kinds,
            #[trigger] snapshot.dense[i].0,
        )
    &&& forall|i: int|
        0 <= i < snapshot.paged.len() ==> expected_name(
            snapshot,
            kinds,
            #[trigger] snapshot.paged[i].0,
        )
}

/// Whether an attention layer has its keys and values, whole or in pages, and its auxiliary keys.
pub open spec fn attention_saved(snapshot: SnapshotView, index: nat) -> bool {
    &&& has_name(snapshot.dense, layer_name(index, LayerPart::AuxiliaryKeys))
    &&& has_name(snapshot.paged, layer_name(index, LayerPart::Keys)) || has_name(
        snapshot.dense,
        layer_name(index, LayerPart::Keys),
    )
    &&& has_name(snapshot.paged, layer_name(index, LayerPart::Values)) || has_name(
        snapshot.dense,
        layer_name(index, LayerPart::Values),
    )
}

/// Whether every attention layer has its state.
pub open spec fn all_attention_saved(snapshot: SnapshotView, kinds: Seq<LayerKind>) -> bool {
    forall|index: nat|
        index < kinds.len() && !kinds[index as int].is_linear ==> #[trigger] attention_saved(
            snapshot,
            index,
        )
}

/// Whether the names of the dense entries stand once.
fn dense_once(entries: &Vec<(String, StateTensor)>) -> (once: bool)
    ensures
        once == names_once(dense_views(entries@)),
{
    let ghost views = dense_views(entries@);
    let mut j: usize = 0;
    while j < entries.len()
        invariant
            j <= entries@.len(),
            views == dense_views(entries@),
            forall|a: int, b: int|
                0 <= a < b < j ==> #[trigger] views[a].0 != #[trigger] views[b].0,
        decreases entries@.len() - j,
    {
        let mut i: usize = 0;
        while i < j
            invariant
                i <= j < entries@.len(),
                views == dense_views(entries@),
                forall|a: int| 0 <= a < i ==> #[trigger] views[a].0 != views[j as int].0,
            decreases j - i,
        {
            if same_text(entries[i].0.as_str(), entries[j].0.as_str()) {
                assert(views[i as int].0 == views[j as int].0);
                return false;
            }
            assert(views[i as int].0 == entries@[i as int].0@);
            i = i + 1;
        }
        j = j + 1;
    }
    true
}

/// Whether the names of the paged entries stand once.
fn paged_once(entries: &Vec<(String, Option<StateTensor>)>) -> (once: bool)
    ensures
        once == names_once(joined_views(entries@)),
{
    let ghost views = joined_views(entries@);
    let mut j: usize = 0;
    while j < entries.len()
        invariant
            j <= entries@.len(),
            views == joined_views(entries@),
            forall|a: int, b: int|
                0 <= a < b < j ==> #[trigger] views[a].0 != #[trigger] views[b].0,
        decreases entries@.len() - j,
    {
        let mut i: usize = 0;
        while i < j
            invariant
                i <= j < entries@.len(),
                views == joined_views(entries@),
                forall|a: int| 0 <= a < i ==> #[trigger] views[a].0 != views[j as int].0,
            decreases j - i,
        {
            if same_text(entries[i].0.as_str(), entries[j].0.as_str()) {
                assert(views[i as int].0 == views[j as int].0);
                return false;
            }
            assert(views[i as int].0 == entries@[i as int].0@);
            i = i + 1;
        }
        j = j + 1;
    }
    true
}

impl StateSnapshot {
    fn is_expected(&self, kinds: &Vec<LayerKind>, name: &str) -> (expected: bool)
        ensures
            expected == expected_name(self@, kinds@, name@),
    {
        if same_text(name, "meta.layer_count") || same_text(name, "mrope.position") || same_text(
            name,
            "mrope.rope_delta",
        ) {
            return true;
        }
        proof {
            found_where_named(self@.dense, name@);
        }
        if same_text(name, "mrope.position_ids") && find_dense(&self.dense, name).is_some() {
            return true;
        }
        let mut index: usize = 0;
        while index < kinds.len()
            invariant
                index <= kinds@.len(),
                forall|i: nat|
                    i < index ==> !#[trigger] allowed_in_layer(i, kinds@[i as int], name@),
            decreases kinds@.len() - index,
        {
            if is_allowed_in_layer(index, kinds[index], name) {
                assert(allowed_in_layer(index as nat, kinds@[index as nat as int], name@));
                return true;
            }
            index = index + 1;
        }
        false
    }

    /// Checks that the snapshot holds what the model saves: no name twice, none that is unknown,
    /// and all of the attention state.
    pub fn validate_snapshot_tensor_names(&self, kinds: &Vec<LayerKind>) -> (result: Result<
        (),
        RestoreError,
    >)
        ensures
            match result {
                Ok(_) => names_match(self@, kinds@) && all_attention_saved(self@, kinds@),
                Err(error) => error@ == if !names_match(self@, kinds@) {
                    RestoreErrorView::Layout
                } else {
                    RestoreErrorView::MissingAttention
                } && !(names_match(self@, kinds@) && all_attention_saved(self@, kinds@)),
            },
    {
        if !dense_once(&self.dense) || !paged_once(&self.paged) {
            return Err(RestoreProblem::Layout);
        }
        let ghost view = self@;
        let mut index: usize = 0;
        while index < self.dense.len()
            invariant
                index <= self.dense@.len(),
                view == self@,
                forall|i: int|
                    0 <= i < index ==> expected_name(view, kinds@, #[trigger] view.dense[i].0),
            decreases self.dense@.len() - index,
        {
            assert(view.dense[index as int].0 == self.dense@[index as int].0@);
            if !self.is_expected(kinds, self.dense[index].0.as_str()) {
                return Err(RestoreProblem::Layout);
            }
            index = index + 1;
        }
        let mut index: usize = 0;
        while index < self.paged.len()
            invariant
                index <= self.paged@.len(),
                view == self@,
                forall|i: int|
                    0 <= i < index ==> expected_name(view, kinds@, #[trigger] view.paged[i].0),
            decreases self.paged@.len() - index,
        {
            assert(view.paged[index as int].0 == self.paged@[index as int].0@);
            if !self.is_expected(kinds, self.paged[index].0.as_str()) {
                return Err(RestoreProblem::Layout);
            }
            index = index + 1;
        }
        let mut index: usize = 0;
        while index < kinds.len()
            invariant
                index <= kinds@.len(),
                view == self@,
                names_match(view, kinds@),
                forall|i: nat|
                    i < index && !kinds@[i as int].is_linear ==> #[trigger] attention_saved(
                        view,
                        i,
                    ),
            decreases kinds@.len() - index,
        {
            if !kinds[index].is_linear {
                let auxiliary: bool = self.layer_dense(index, LayerPart::AuxiliaryKeys).is_some();
                let keys: bool = self.has_pages(index, LayerPart::Keys);
                let values: bool = self.has_pages(index, LayerPart::Values);
                proof {
                    found_where_named(view.dense, layer_name(index as nat, LayerPart::AuxiliaryKeys));
                    assert((auxiliary && keys && values) == attention_saved(view, index as nat));
                }
                if !(auxiliary && keys && values) {
                    assert(!kinds@[index as nat as int].is_linear);
                    return Err(RestoreProblem::MissingAttention);
                }
            }
            index = index + 1;
        }
        Ok(())
    }

    /// Whether a part was saved, whole or in pages.
    fn has_pages(&self, index: usize, part: LayerPart) -> (saved: bool)
        ensures
            saved == (has_name(self@.paged, layer_name(index as nat, part)) || has_name(
                self@.dense,
                layer_name(index as nat, part),
            )),
    {
        let name: String = layer_part_name(index, part);
        proof {
            found_where_named(self@.paged, name@);
            found_where_named(self@.dense, name@);
        }
        find_paged(&self.paged, name.as_str()).is_some() || find_dense(
            &self.dense,
            name.as_str(),
        ).is_some()
    }
}

/// The state of a layer as it is put back. `T` is a tensor and `D` a list of integers.
#[derive(Debug)]
pub enum RestoredLayer<T, D> {
    Attention {
        offset: i32,
        keys: T,
        values: T,
        auxiliary_keys: T,
        tail_start: i32,
        tail_end: i32,
        rollback_horizon: i32,
        block_size: i32,
        block_keys: Option<T>,
    },
    Linear {
        offset: i32,
        conv_state: T,
        state_cache: T,
        ple_conv_state: Option<T>,
        ple_token_history: D,
    },
}

pub type RestoredView = RestoredLayer<TensorView, Seq<i32>>;

impl View for RestoredLayer<StateTensor, Vec<i32>> {
    type V = RestoredLayer<TensorView, Seq<i32>>;

    open spec fn view(&self) -> RestoredLayer<TensorView, Seq<i32>> {
        match *self {
            RestoredLayer::Attention {
                offset,
                keys,
                values,
                auxiliary_keys,
                tail_start,
                tail_end,
                rollback_horizon,
                block_size,
                block_keys,
            } => RestoredLayer::Attention {
                offset,
                keys: keys@,
                values: values@,
                auxiliary_keys: auxiliary_keys@,
                tail_start,
                tail_end,
                rollback_horizon,
                block_size,
                block_keys: optional_view(block_keys),
            },
            RestoredLayer::Linear {
                offset,
                conv_state,
                state_cache,
                ple_conv_state,
                ple_token_history,
            } => RestoredLayer::Linear {
                offset,
                conv_state: conv_state@,
                state_cache: state_cache@,
                ple_conv_state: optional_view(ple_conv_state),
                ple_token_history: ple_token_history@,
            },
        }
    }
}

/// The recurrent state of a layer that a snapshot holds.
pub open spec fn restored_linear(
    snapshot: SnapshotView,
    index: usize,
    kind: LayerKind,
    token_len: i32,
) -> Result<RestoredView, RestoreErrorView> {
    match (
        named(snapshot.dense, layer_name(index as nat, LayerPart::ConvState)),
        named(snapshot.dense, layer_name(index as nat, LayerPart::StateCache)),
    ) {
        (None, _) => Err(RestoreProblem::MissingConvState(index)),
        (_, None) => Err(RestoreProblem::MissingRecurrentState(index)),
        (Some(conv_state), Some(state_cache)) => if conv_state.shape.len() != 3
            || state_cache.shape.len() != 4 {
            Err(RestoreProblem::LinearLayout(index))
        } else if kind.has_ple {
            match (
                named(snapshot.dense, layer_name(index as nat, LayerPart::PleConvState)),
                named(snapshot.dense, layer_name(index as nat, LayerPart::PleTokenHistory)),
            ) {
                (None, _) => Err(RestoreProblem::MissingPleConvState(index)),
                (_, None) => Err(RestoreProblem::MissingPleHistory(index)),
                (Some(ple_conv_state), Some(history)) => if ple_conv_state.shape.len() != 3
                    || history.shape.len() != 1 {
                    Err(RestoreProblem::PleLayout(index))
                } else {
                    Ok(
                        RestoredLayer::Linear {
                            offset: token_len,
                            conv_state,
                            state_cache,
                            ple_conv_state: Some(ple_conv_state),
                            ple_token_history: history.contents,
                        },
                    )
                },
            }
        } else {
            Ok(
                RestoredLayer::Linear {
                    offset: token_len,
                    conv_state,
                    state_cache,
                    ple_conv_state: None,
                    ple_token_history: Seq::empty(),
                },
            )
        },
    }
}

/// Whether keys and values have the layout of a cache of at least `token_len` tokens.
pub open spec fn cache_layout(keys: TensorView, values: TensorView, token_len: int) -> bool {
    &&& keys.shape.len() == 4
    &&& keys.shape == values.shape
    &&& keys.shape[0] == 1
    &&& keys.shape[2] >= token_len
}

/// The attention state of a layer that a snapshot holds.
pub open spec fn restored_attention(
    snapshot: SnapshotView,
    index: usize,
    token_len: i32,
) -> Result<RestoredView, RestoreErrorView> {
    match (
        saved_pages(snapshot, layer_name(index as nat, LayerPart::Keys)),
        saved_pages(snapshot, layer_name(index as nat, LayerPart::Values)),
    ) {
        (None, _) => Err(RestoreProblem::MissingKeys(index)),
        (_, None) => Err(RestoreProblem::MissingValues(index)),
        (Some(keys), Some(values)) => if !cache_layout(keys, values, token_len as int) {
            Err(RestoreProblem::AttentionLayout(index))
        } else {
            match named(snapshot.dense, layer_name(index as nat, LayerPart::AuxiliaryKeys)) {
                None => Err(RestoreProblem::MissingAuxiliaryKeys(index)),
                Some(auxiliary_keys) => match (
                    saved_integer(snapshot, layer_name(index as nat, LayerPart::TailStart)),
                    saved_integer(snapshot, layer_name(index as nat, LayerPart::TailEnd)),
                    saved_integer(snapshot, layer_name(index as nat, LayerPart::RollbackHorizon)),
                    saved_integer(snapshot, layer_name(index as nat, LayerPart::BlockSize)),
                ) {
                    (Err(problem), _, _, _) => Err(problem),
                    (_, Err(problem), _, _) => Err(problem),
                    (_, _, Err(problem), _) => Err(problem),
                    (_, _, _, Err(problem)) => Err(problem),
                    (Ok(tail_start), Ok(tail_end), Ok(rollback_horizon), Ok(block_size)) => Ok(
                        RestoredLayer::Attention {
                            offset: token_len,
                            keys,
                            values,
                            auxiliary_keys,
                            tail_start,
                            tail_end,
                            rollback_horizon,
                            block_size,
                            block_keys: saved_pages(
                                snapshot,
                                layer_name(index as nat, LayerPart::BlockKeys),
                            ),
                        },
                    ),
                },
            }
        },
    }
}

/// The state of a layer that a snapshot holds.
pub open spec fn restored_layer(
    snapshot: SnapshotView,
    index: usize,
    kind: LayerKind,
    token_len: i32,
) -> Result<RestoredView, RestoreErrorView> {
    match saved_integer(snapshot, layer_name(index as nat, LayerPart::Kind)) {
        Err(problem) => Err(problem),
        Ok(number) => if number != kind_number(kind) {
            Err(RestoreProblem::Variant(index))
        } else {
            match saved_integer(snapshot, layer_name(index as nat, LayerPart::Offset)) {
                Err(problem) => Err(problem),
                Ok(offset) => if offset != token_len {
                    Err(RestoreProblem::Offset(index))
                } else if kind.is_linear {
                    restored_linear(snapshot, index, kind, token_len)
                } else {
                    restored_attention(snapshot, index, token_len)
                },
            }
        },
    }
}

/// Whether a restored layer is the one that is specified.
pub open spec fn layer_agrees(
    result: Result<RestoredLayer<StateTensor, Vec<i32>>, RestoreError>,
    expected: Result<RestoredView, RestoreErrorView>,
) -> bool {
    match result {
        Ok(layer) => expected == Ok::<RestoredView, RestoreErrorView>(layer@),
        Err(error) => expected == Err::<RestoredView, RestoreErrorView>(error@),
    }
}

impl StateSnapshot {
    fn restore_linear(&self, index: usize, kind: LayerKind, token_len: i32) -> (result: Result<
        RestoredLayer<StateTensor, Vec<i32>>,
        RestoreError,
    >)
        ensures
            layer_agrees(result, restored_linear(self@, index, kind, token_len)),
    {
        let conv_state: &StateTensor = match self.layer_dense(index, LayerPart::ConvState) {
            Some(tensor) => tensor,
            None => {
                return Err(RestoreProblem::MissingConvState(index));
            },
        };
        let state_cache: &StateTensor = match self.layer_dense(index, LayerPart::StateCache) {
            Some(tensor) => tensor,
            None => {
                return Err(RestoreProblem::MissingRecurrentState(index));
            },
        };
        if conv_state.shape.len() != 3 || state_cache.shape.len() != 4 {
            return Err(RestoreProblem::LinearLayout(index));
        }
        let mut ple_conv_state: Option<StateTensor> = None;
        let mut ple_token_history: Vec<i32> = Vec::new();
        if kind.has_ple {
            let conv: &StateTensor = match self.layer_dense(index, LayerPart::PleConvState) {
                Some(tensor) => tensor,
                None => {
                    return Err(RestoreProblem::MissingPleConvState(index));
                },
            };
            let history: &StateTensor = match self.layer_dense(index, LayerPart::PleTokenHistory) {
                Some(tensor) => tensor,
                None => {
                    return Err(RestoreProblem::MissingPleHistory(index));
                },
            };
            if conv.shape.len() != 3 || history.shape.len() != 1 {
                return Err(RestoreProblem::PleLayout(index));
            }
            ple_conv_state = Some(copy_tensor(conv));
            ple_token_history = copy_integers(&history.contents);
        }
        Ok(
            RestoredLayer::Linear {
                offset: token_len,
                conv_state: copy_tensor(conv_state),
                state_cache: copy_tensor(state_cache),
                ple_conv_state,
                ple_token_history,
            },
        )
    }

    fn restore_attention(&self, index: usize, token_len: i32) -> (result: Result<
        RestoredLayer<StateTensor, Vec<i32>>,
        RestoreError,
    >)
        ensures
            layer_agrees(result, restored_attention(self@, index, token_len)),
    {
        let keys: &StateTensor = match self.layer_pages(index, LayerPart::Keys) {
            Some(tensor) => tensor,
            None => {
                return Err(RestoreProblem::MissingKeys(index));
            },
        };
        let values: &StateTensor = match self.layer_pages(index, LayerPart::Values) {
            Some(tensor) => tensor,
            None => {
                return Err(RestoreProblem::MissingValues(index));
            },
        };
        if keys.shape.len() != 4 || !same_tokens(keys.shape.as_slice(), values.shape.as_slice())
            || keys.shape[0] != 1 || keys.shape[2] < token_len {
            return Err(RestoreProblem::AttentionLayout(index));
        }
        let auxiliary_keys: &StateTensor = match self.layer_dense(index, LayerPart::AuxiliaryKeys) {
            Some(tensor) => tensor,
            None => {
                return Err(RestoreProblem::MissingAuxiliaryKeys(index));
            },
        };
        let tail_start: i32 = self.layer_i32(index, LayerPart::TailStart)?;
        let tail_end: i32 = self.layer_i32(index, LayerPart::TailEnd)?;
        let rollback_horizon: i32 = self.layer_i32(index, LayerPart::RollbackHorizon)?;
        let block_size: i32 = self.layer_i32(index, LayerPart::BlockSize)?;
        let block_keys: Option<StateTensor> = match self.layer_pages(index, LayerPart::BlockKeys) {
            Some(tensor) => Some(copy_tensor(tensor)),
            None => None,
        };
        Ok(
            RestoredLayer::Attention {
                offset: token_len,
                keys: copy_tensor(keys),
                values: copy_tensor(values),
                auxiliary_keys: copy_tensor(auxiliary_keys),
                tail_start,
                tail_end,
                rollback_horizon,
                block_size,
                block_keys,
            },
        )
    }

    /// The state of one layer.
    pub fn restore_layer(&self, index: usize, kind: LayerKind, token_len: i32) -> (result: Result<
        RestoredLayer<StateTensor, Vec<i32>>,
        RestoreError,
    >)
        ensures
            layer_agrees(result, restored_layer(self@, index, kind, token_len)),
    {
        let expected: i32 = if kind.is_linear {
            1
        } else {
            0
        };
        let number: i32 = self.layer_i32(index, LayerPart::Kind)?;
        if number != expected {
            return Err(RestoreProblem::Variant(index));
        }
        let offset: i32 = self.layer_i32(index, LayerPart::Offset)?;
        if offset != token_len {
            return Err(RestoreProblem::Offset(index));
        }
        if kind.is_linear {
            self.restore_linear(index, kind, token_len)
        } else {
            self.restore_attention(index, token_len)
        }
    }
}

/// What opening a snapshot gives: the number of tokens that it holds, once the snapshot is known to
/// belong to the model.
pub open spec fn opened(snapshot: SnapshotView, kinds: Seq<LayerKind>) -> Result<
    i32,
    RestoreErrorView,
> {
    if snapshot.family != "qwen4-target"@ {
        Err(RestoreProblem::Family)
    } else if snapshot.token_len > i32::MAX {
        Err(RestoreProblem::TokenLength)
    } else {
        match saved_integer(snapshot, "meta.layer_count"@) {
            Err(problem) => Err(problem),
            Ok(count) => if count != (if kinds.len() <= i32::MAX {
                kinds.len() as int
            } else {
                i32::MAX as int
            }) {
                Err(RestoreProblem::LayerCount)
            } else if !names_match(snapshot, kinds) {
                Err(RestoreProblem::Layout)
            } else if !all_attention_saved(snapshot, kinds) {
                Err(RestoreProblem::MissingAttention)
            } else {
                Ok(snapshot.token_len as i32)
            },
        }
    }
}

/// The states of the first `count` layers that a snapshot holds.
pub open spec fn restored_layers(
    snapshot: SnapshotView,
    kinds: Seq<LayerKind>,
    token_len: i32,
    count: nat,
) -> Result<Seq<RestoredView>, RestoreErrorView>
    decreases count,
{
    if count == 0 {
        Ok(Seq::empty())
    } else {
        match restored_layers(snapshot, kinds, token_len, (count - 1) as nat) {
            Err(problem) => Err(problem),
            Ok(front) => match restored_layer(
                snapshot,
                (count - 1) as usize,
                kinds[count - 1],
                token_len,
            ) {
                Err(problem) => Err(problem),
                Ok(layer) => Ok(front.push(layer)),
            },
        }
    }
}

/// The rotary state that a snapshot holds: what decoding adds, and the explicit positions.
pub open spec fn restored_rope(snapshot: SnapshotView, token_len: i32) -> Result<
    (Option<i32>, Option<TensorView>),
    RestoreErrorView,
> {
    match saved_integer(snapshot, "mrope.position"@) {
        Err(problem) => Err(problem),
        Ok(position) => if position != token_len {
            Err(RestoreProblem::Position)
        } else {
            match saved_integer(snapshot, "mrope.rope_delta"@) {
                Err(problem) => Err(problem),
                Ok(delta) => Ok(
                    (
                        if delta == i32::MIN {
                            None
                        } else {
                            Some(delta)
                        },
                        named(snapshot.dense, "mrope.position_ids"@),
                    ),
                ),
            }
        },
    }
}

/// What a snapshot holds, ready to be put back.
pub struct SequenceView {
    pub token_len: i32,
    pub layers: Seq<RestoredView>,
    pub rope_delta: Option<i32>,
    pub position_ids: Option<TensorView>,
}

/// What a snapshot holds, ready to be put back. The rotary position is the number of tokens.
#[derive(Debug)]
pub struct RestoredSequence {
    pub token_len: i32,
    pub layers: Vec<RestoredLayer<StateTensor, Vec<i32>>>,
    pub rope_delta: Option<i32>,
    pub position_ids: Option<StateTensor>,
}

pub open spec fn restored_views(layers: Seq<RestoredLayer<StateTensor, Vec<i32>>>) -> Seq<
    RestoredView,
> {
    layers.map_values(|layer: RestoredLayer<StateTensor, Vec<i32>>| layer@)
}

impl View for RestoredSequence {
    type V = SequenceView;

    open spec fn view(&self) -> SequenceView {
        SequenceView {
            token_len: self.token_len,
            layers: restored_views(self.layers@),
            rope_delta: self.rope_delta,
            position_ids: optional_view(self.position_ids),
        }
    }
}

/// What a snapshot holds for a model with these layers, or the first problem.
pub open spec fn restored_sequence(snapshot: SnapshotView, kinds: Seq<LayerKind>) -> Result<
    SequenceView,
    RestoreErrorView,
> {
    match opened(snapshot, kinds) {
        Err(problem) => Err(problem),
        Ok(token_len) => match restored_layers(snapshot, kinds, token_len, kinds.len()) {
            Err(problem) => Err(problem),
            Ok(layers) => match restored_rope(snapshot, token_len) {
                Err(problem) => Err(problem),
                Ok((rope_delta, position_ids)) => Ok(
                    SequenceView { token_len, layers, rope_delta, position_ids },
                ),
            },
        },
    }
}

/// Once a layer has a problem, the sequence has it.
proof fn first_problem_stays(
    snapshot: SnapshotView,
    kinds: Seq<LayerKind>,
    token_len: i32,
    count: nat,
    all: nat,
)
    requires
        count <= all,
        restored_layers(snapshot, kinds, token_len, count) is Err,
    ensures
        restored_layers(snapshot, kinds, token_len, all) == restored_layers(
            snapshot,
            kinds,
            token_len,
            count,
        ),
    decreases all,
{
    if count < all {
        first_problem_stays(snapshot, kinds, token_len, count, (all - 1) as nat);
    }
}

impl StateSnapshot {
    /// Checks that the snapshot belongs to the model and gives the number of tokens that it holds.
    pub fn open(&self, kinds: &Vec<LayerKind>) -> (result: Result<i32, RestoreError>)
        ensures
            agrees(result, opened(self@, kinds@)),
    {
        if !same_text(self.family.as_str(), snapshot_family()) {
            return Err(RestoreProblem::Family);
        }
        if self.token_len > i32::MAX as usize {
            return Err(RestoreProblem::TokenLength);
        }
        let count: i32 = self.snapshot_i32("meta.layer_count")?;
        let expected: i32 = if kinds.len() <= i32::MAX as usize {
            kinds.len() as i32
        } else {
            i32::MAX
        };
        if count != expected {
            return Err(RestoreProblem::LayerCount);
        }
        match self.validate_snapshot_tensor_names(kinds) {
            Ok(_) => Ok(self.token_len as i32),
            Err(error) => Err(error),
        }
    }

    /// The rotary state: what decoding adds, and the explicit positions.
    pub fn restore_rope(&self, token_len: i32) -> (result: Result<
        (Option<i32>, Option<StateTensor>),
        RestoreError,
    >)
        ensures
            match result {
                Ok((rope_delta, position_ids)) => restored_rope(self@, token_len) == Ok::<
                    (Option<i32>, Option<TensorView>),
                    RestoreErrorView,
                >((rope_delta, optional_view(position_ids))),
                Err(error) => restored_rope(self@, token_len) == Err::<
                    (Option<i32>, Option<TensorView>),
                    RestoreErrorView,
                >(error@),
            },
    {
        let position: i32 = self.snapshot_i32("mrope.position")?;
        if position != token_len {
            return Err(RestoreProblem::Position);
        }
        let delta: i32 = self.snapshot_i32("mrope.rope_delta")?;
        let rope_delta: Option<i32> = if delta == i32::MIN {
            None
        } else {
            Some(delta)
        };
        let position_ids: Option<StateTensor> = match find_dense(&self.dense, "mrope.position_ids") {
            Some(tensor) => Some(copy_tensor(tensor)),
            None => None,
        };
        Ok((rope_delta, position_ids))
    }

    /// Reads back everything that the snapshot holds.
    pub fn restore_sequence_state(&self, kinds: &Vec<LayerKind>) -> (result: Result<
        RestoredSequence,
        RestoreError,
    >)
        ensures
            match result {
                Ok(sequence) => restored_sequence(self@, kinds@) == Ok::<
                    SequenceView,
                    RestoreErrorView,
                >(sequence@),
                Err(error) => restored_sequence(self@, kinds@) == Err::<
                    SequenceView,
                    RestoreErrorView,
                >(error@),
            },
    {
        let token_len: i32 = self.open(kinds)?;
        let mut layers: Vec<RestoredLayer<StateTensor, Vec<i32>>> = Vec::new();
        let mut index: usize = 0;
        assert(restored_views(layers@) == Seq::<RestoredView>::empty());
        while index < kinds.len()
            invariant
                index <= kinds@.len(),
                opened(self@, kinds@) == Ok::<i32, RestoreErrorView>(token_len),
                restored_layers(self@, kinds@, token_len, index as nat) == Ok::<
                    Seq<RestoredView>,
                    RestoreErrorView,
                >(restored_views(layers@)),
            decreases kinds@.len() - index,
        {
            let result = self.restore_layer(index, kinds[index], token_len);
            match result {
                Ok(layer) => {
                    let ghost before = layers@;
                    let ghost view = layer@;
                    layers.push(layer);
                    assert(restored_views(layers@) == restored_views(before).push(view));
                },
                Err(error) => {
                    proof {
                        first_problem_stays(
                            self@,
                            kinds@,
                            token_len,
                            (index + 1) as nat,
                            kinds@.len(),
                        );
                    }
                    return Err(error);
                },
            }
            index = index + 1;
        }
        let (rope_delta, position_ids): (Option<i32>, Option<StateTensor>) = self.restore_rope(
            token_len,
        )?;
        Ok(RestoredSequence { token_len, layers, rope_delta, position_ids })
    }

    /// Whether the state at `target_len` tokens can be had from the snapshot. Recurrent state
    /// cannot be wound back.
    pub open spec fn truncatable(&self, target_len: int) -> bool {
        self.family@ == "qwen4-target"@ && target_len == self.token_len
    }

    /// Whether the state at `target_len` tokens can be had from the snapshot.
    pub fn snapshot_truncatable_to(&self, target_len: usize) -> (truncatable: bool)
        ensures
            truncatable == self.truncatable(target_len as int),
    {
        same_text(self.family.as_str(), snapshot_family()) && target_len == self.token_len
    }

    /// Reads back the state at `target_len` tokens.
    pub fn restore_sequence_state_truncated(
        &self,
        kinds: &Vec<LayerKind>,
        target_len: usize,
    ) -> (result: Result<RestoredSequence, RestoreError>)
        ensures
            match result {
                Ok(sequence) => self.truncatable(target_len as int) && restored_sequence(
                    self@,
                    kinds@,
                ) == Ok::<SequenceView, RestoreErrorView>(sequence@),
                Err(error) => if self.truncatable(target_len as int) {
                    restored_sequence(self@, kinds@) == Err::<SequenceView, RestoreErrorView>(
                        error@,
                    )
                } else {
                    error@ == RestoreErrorView::NotTruncatable
                },
            },
    {
        if !self.snapshot_truncatable_to(target_len) {
            return Err(RestoreProblem::NotTruncatable);
        }
        self.restore_sequence_state(kinds)
    }
}

/// Tokens that end a reply.
pub fn eos_token_ids() -> (tokens: Vec<i32>)
    ensures
        tokens@ == seq![248046i32, 248044i32],
{
    vec![248046, 248044]
}

} // verus!
