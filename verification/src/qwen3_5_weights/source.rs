//! Loading decisions: which bytes a tensor takes, how it is kept resident, and whether every
//! planned tensor was taken exactly once.

use vstd::prelude::*;
use crate::qwen3_5_weights::slots::{
    affine_qtype,
    dimensions_are,
    is_pair,
    m234_signature,
    m2_signature,
    pinned_affine_qtype,
    pinned_m234_affine_signature,
    pinned_m2_affine_signature,
    pinned_qkv_bundle_signature,
    pinned_slot,
    pinned_slots_are_distinct,
    pinned_slots_are_in_range,
    qkv_bundle_uses_layer_slots,
    qkv_signature,
    slot_in_range,
    slot_of,
    LayerTensor,
    ModelRole,
    PinnedSlot,
    SlotError,
    TensorDescriptor,
    TensorSlot,
    MTP_PLAN_SLOTS,
    TARGET_PLAN_SLOTS,
};
use crate::text::{normalize, normalized};

verus! {

/// Bytes of a memory page, as far as releasing mapped pages is concerned.
pub const PAGE_BYTES: usize = 4096;

/// The type of unquantised tensors.
pub const QTYPE_F32: u32 = 0;

/// The six-bit type that is kept in two representations.
pub const QTYPE_Q6_K: u32 = 14;

/// Name of the environment variable that switches the fused feed-forward carrier off.
pub fn qwen38_mlp_carrier_env_var() -> (name: &'static str)
    ensures
        name@ == "MLXCEL_QWEN38_MLP_CARRIER"@,
{
    "MLXCEL_QWEN38_MLP_CARRIER"
}

/// Whether a setting says no.
pub open spec fn says_no(value: Seq<char>) -> bool {
    let plain = normalized(value);
    plain == seq!['0'] || plain == seq!['f', 'a', 'l', 's', 'e'] || plain == seq!['o', 'f', 'f']
        || plain == seq!['n', 'o']
}

/// Whether the fused feed-forward carrier is on: it is unless the setting says no, in any case and
/// with any white space around it.
pub fn parse_qwen38_mlp_carrier_enabled(value: Option<&str>) -> (enabled: bool)
    ensures
        enabled == (value is None || !says_no(value->0@)),
{
    let value: &str = match value {
        Some(value) => value,
        None => {
            return true;
        },
    };
    let plain = normalize(value);
    proof {
        let zero = seq!['0'];
        let no = seq!['n', 'o'];
        let off = seq!['o', 'f', 'f'];
        let untrue = seq!['f', 'a', 'l', 's', 'e'];
        assert(zero.len() == 1 && zero[0] == '0');
        assert(no.len() == 2 && no[0] == 'n' && no[1] == 'o');
        assert(off.len() == 3 && off[0] == 'o' && off[1] == 'f' && off[2] == 'f');
        assert(untrue.len() == 5 && untrue[0] == 'f' && untrue[1] == 'a' && untrue[2] == 'l'
            && untrue[3] == 's' && untrue[4] == 'e');
    }
    let length: usize = plain.len();
    let no = if length == 1 && plain[0] == '0' {
        assert(plain@ == seq!['0']);
        true
    } else if length == 2 && plain[0] == 'n' && plain[1] == 'o' {
        assert(plain@ == seq!['n', 'o']);
        true
    } else if length == 3 && plain[0] == 'o' && plain[1] == 'f' && plain[2] == 'f' {
        assert(plain@ == seq!['o', 'f', 'f']);
        true
    } else if length == 5 && plain[0] == 'f' && plain[1] == 'a' && plain[2] == 'l' && plain[3] == 's'
        && plain[4] == 'e' {
        assert(plain@ == seq!['f', 'a', 'l', 's', 'e']);
        true
    } else {
        false
    };
    !no
}

/// One tensor of a checkpoint file.
#[derive(Debug)]
pub struct GgufTensorInfo {
    pub qtype: u32,
    /// Dimensions, the fastest one first.
    pub dimensions: Vec<u64>,
    pub absolute_offset: u64,
    pub byte_len: u64,
}

/// Why a tensor cannot be loaded.
#[derive(Debug, Clone, Copy, PartialEq, Eq, Structural)]
pub enum WeightError {
    /// The tensor has no place in the pinned pair.
    Slot(SlotError),
    /// The tensor was taken already.
    ConsumedTwice(PinnedSlot),
    OffsetOverflow,
    LengthOverflow,
    RangeOverflow,
    /// The tensor reaches beyond its file.
    BeyondFile(PinnedSlot),
    /// An unquantised tensor is expected.
    NotNative,
    /// A dimension does not fit the machine.
    DimensionOverflow,
    /// A packed matrix is expected.
    NotPacked,
    NotRankTwo,
    M234SlotChanged,
    M2SlotChanged,
    M234DescriptorChanged,
    M2DescriptorChanged,
    Q6OutputShapeChanged,
    Q6Dimensions,
    UnknownQType,
    NoResidentRepresentation,
    QkvSlotChanged,
    QkvDescriptorChanged,
}

/// Shapes that the six-bit kernels are built for, input first.
#[derive(Debug, Clone, Copy, PartialEq, Eq, Structural)]
pub enum Qwen38Q6Shape {
    K5120N1024,
    K5120N6144,
    K5120N10240,
    K5120N12288,
    K5120N17408,
    K6144N5120,
    K10240N5120,
    K17408N5120,
}

/// The dimensions that a six-bit kernel shape stands for.
pub open spec fn q6_dimensions(shape: Qwen38Q6Shape) -> (u64, u64) {
    match shape {
        Qwen38Q6Shape::K5120N1024 => (5120, 1024),
        Qwen38Q6Shape::K5120N6144 => (5120, 6144),
        Qwen38Q6Shape::K5120N10240 => (5120, 10240),
        Qwen38Q6Shape::K5120N12288 => (5120, 12288),
        Qwen38Q6Shape::K5120N17408 => (5120, 17408),
        Qwen38Q6Shape::K6144N5120 => (6144, 5120),
        Qwen38Q6Shape::K10240N5120 => (10240, 5120),
        Qwen38Q6Shape::K17408N5120 => (17408, 5120),
    }
}

/// The six-bit kernel for these dimensions, if there is one.
pub open spec fn q6_shape_for(dimensions: Seq<u64>) -> Option<Qwen38Q6Shape> {
    if exists|shape: Qwen38Q6Shape| is_pair(dimensions, #[trigger] q6_dimensions(shape)) {
        Some(choose|shape: Qwen38Q6Shape| is_pair(dimensions, #[trigger] q6_dimensions(shape)))
    } else {
        None
    }
}

/// Kernels differ in their dimensions, so at most one fits.
pub proof fn q6_shapes_are_distinct(left: Qwen38Q6Shape, right: Qwen38Q6Shape)
    requires
        q6_dimensions(left) == q6_dimensions(right),
    ensures
        left == right,
{
}

/// The six-bit kernel of a tensor: none for other types and for the output head, which is run
/// from its packed bytes; for the rest the dimensions have to be those of a kernel.
pub open spec fn q6_kernel(slot: PinnedSlot, tensor: GgufTensorInfo) -> Result<
    Option<Qwen38Q6Shape>,
    WeightError,
> {
    if tensor.qtype != QTYPE_Q6_K {
        Ok(None)
    } else if slot == PinnedSlot::Target(0) {
        if is_pair(tensor.dimensions@, (5120, 248320)) {
            Ok(None)
        } else {
            Err(WeightError::Q6OutputShapeChanged)
        }
    } else {
        match q6_shape_for(tensor.dimensions@) {
            Some(shape) => Ok(Some(shape)),
            None => Err(WeightError::Q6Dimensions),
        }
    }
}

/// The six-bit kernel of a tensor, if it has one.
pub fn pinned_q6_shape(slot: PinnedSlot, tensor: &GgufTensorInfo) -> (result: Result<
    Option<Qwen38Q6Shape>,
    WeightError,
>)
    ensures
        result == q6_kernel(slot, *tensor),
{
    if tensor.qtype != QTYPE_Q6_K {
        return Ok(None);
    }
    if slot == PinnedSlot::Target(0) {
        if !dimensions_are(&tensor.dimensions, (5120, 248320)) {
            return Err(WeightError::Q6OutputShapeChanged);
        }
        return Ok(None);
    }
    if tensor.dimensions.len() != 2 {
        return Err(WeightError::Q6Dimensions);
    }
    let shape: Qwen38Q6Shape = match (tensor.dimensions[0], tensor.dimensions[1]) {
        (5120, 1024) => Qwen38Q6Shape::K5120N1024,
        (5120, 6144) => Qwen38Q6Shape::K5120N6144,
        (5120, 10240) => Qwen38Q6Shape::K5120N10240,
        (5120, 12288) => Qwen38Q6Shape::K5120N12288,
        (5120, 17408) => Qwen38Q6Shape::K5120N17408,
        (6144, 5120) => Qwen38Q6Shape::K6144N5120,
        (10240, 5120) => Qwen38Q6Shape::K10240N5120,
        (17408, 5120) => Qwen38Q6Shape::K17408N5120,
        _ => {
            return Err(WeightError::Q6Dimensions);
        },
    };
    proof {
        assert(is_pair(tensor.dimensions@, q6_dimensions(shape)));
        q6_shapes_are_distinct(shape, q6_shape_for(tensor.dimensions@)->0);
    }
    Ok(Some(shape))
}

/// A stretch of bytes.
#[derive(Debug, Clone, Copy, PartialEq, Eq, Structural)]
pub struct ByteRange {
    pub start: usize,
    pub end: usize,
}

/// The bytes of a tensor within a file of `map_len` bytes.
pub open spec fn tensor_range(
    slot: PinnedSlot,
    tensor: GgufTensorInfo,
    map_len: nat,
) -> Result<ByteRange, WeightError> {
    let start = tensor.absolute_offset as int;
    let end = start + tensor.byte_len;
    if start > usize::MAX {
        Err(WeightError::OffsetOverflow)
    } else if tensor.byte_len > usize::MAX {
        Err(WeightError::LengthOverflow)
    } else if end > usize::MAX {
        Err(WeightError::RangeOverflow)
    } else if end > map_len {
        Err(WeightError::BeyondFile(slot))
    } else {
        Ok(ByteRange { start: start as usize, end: end as usize })
    }
}

fn tensor_bytes(slot: PinnedSlot, tensor: &GgufTensorInfo, map_len: usize) -> (result: Result<
    ByteRange,
    WeightError,
>)
    ensures
        result == tensor_range(slot, *tensor, map_len as nat),
{
    if tensor.absolute_offset > usize::MAX as u64 {
        return Err(WeightError::OffsetOverflow);
    }
    if tensor.byte_len > usize::MAX as u64 {
        return Err(WeightError::LengthOverflow);
    }
    let start: usize = tensor.absolute_offset as usize;
    match start.checked_add(tensor.byte_len as usize) {
        None => Err(WeightError::RangeOverflow),
        Some(end) => if end > map_len {
            Err(WeightError::BeyondFile(slot))
        } else {
            Ok(ByteRange { start, end })
        },
    }
}

/// The first page boundary at or after `offset`.
pub open spec fn page_ceil(offset: int) -> int {
    (offset + 4095) / 4096 * 4096
}

/// The last page boundary at or before `offset`.
pub open spec fn page_floor(offset: int) -> int {
    offset / 4096 * 4096
}

/// The pages that a whole loaded tensor touches, cut at the end of the file: they can be released
/// once nothing borrows from the tensor. `None` when the tensor does not fit the machine.
pub fn discard_tensor_pages(tensor: &GgufTensorInfo, map_len: usize) -> (pages: Option<ByteRange>)
    requires
        tensor.absolute_offset <= map_len,
    ensures
        match pages {
            Some(pages) => {
                &&& pages.start == page_floor(tensor.absolute_offset as int)
                &&& pages.end == vstd::math::min(
                    page_ceil(tensor.absolute_offset + tensor.byte_len),
                    map_len as int,
                )
                &&& pages.start <= pages.end <= map_len
            },
            None => tensor.byte_len > usize::MAX,
        },
{
    if tensor.byte_len > usize::MAX as u64 {
        return None;
    }
    let start: usize = tensor.absolute_offset as usize;
    let page_start: usize = start / PAGE_BYTES * PAGE_BYTES;
    let end: usize = start.saturating_add(tensor.byte_len as usize);
    let whole: usize = end / PAGE_BYTES;
    let pages: usize = if end % PAGE_BYTES == 0 {
        whole
    } else {
        whole + 1
    };
    let page_end: usize = match pages.checked_mul(PAGE_BYTES) {
        Some(bytes) => if bytes < map_len {
            bytes
        } else {
            map_len
        },
        None => map_len,
    };
    Some(ByteRange { start: page_start, end: page_end })
}

/// The pages that lie wholly inside `relative`, a part of a tensor that has been consumed: they
/// can be released while the rest is still read. `None` when there is no such page.
pub fn discard_tensor_byte_range(tensor: &GgufTensorInfo, relative: ByteRange, map_len: usize) -> (pages:
    Option<ByteRange>)
    requires
        map_len <= isize::MAX,
    ensures
        ({
            let start = page_ceil(tensor.absolute_offset + relative.start);
            let end = page_floor(tensor.absolute_offset + relative.end);
            let inside = tensor.absolute_offset <= usize::MAX && tensor.byte_len <= usize::MAX
                && relative.start <= relative.end <= tensor.byte_len;
            match pages {
                Some(pages) => inside && pages.start == start && pages.end == end && start < end
                    <= map_len,
                None => !inside || start >= end || end > map_len,
            }
        }),
{
    if tensor.absolute_offset > usize::MAX as u64 || tensor.byte_len > usize::MAX as u64 {
        return None;
    }
    let tensor_start: usize = tensor.absolute_offset as usize;
    let tensor_len: usize = tensor.byte_len as usize;
    if relative.start > relative.end || relative.end > tensor_len {
        return None;
    }
    let absolute_start: usize = tensor_start.saturating_add(relative.start);
    let absolute_end: usize = tensor_start.saturating_add(relative.end);
    let page_end: usize = absolute_end / PAGE_BYTES * PAGE_BYTES;
    if page_end > map_len {
        return None;
    }
    let whole: usize = absolute_start / PAGE_BYTES;
    let page: usize = if absolute_start % PAGE_BYTES == 0 {
        whole
    } else {
        whole + 1
    };
    match page.checked_mul(PAGE_BYTES) {
        Some(page_start) => if page_start < page_end {
            Some(ByteRange { start: page_start, end: page_end })
        } else {
            None
        },
        None => None,
    }
}

/// Releasing the pages inside a consumed part never touches bytes outside of it.
pub proof fn discarded_pages_lie_inside(tensor_start: int, relative_start: int, relative_end: int)
    requires
        0 <= tensor_start,
        0 <= relative_start <= relative_end,
    ensures
        tensor_start + relative_start <= page_ceil(tensor_start + relative_start),
        page_floor(tensor_start + relative_end) <= tensor_start + relative_end,
{
}

/// How a projection is kept resident.
#[derive(Debug, Clone, Copy, PartialEq, Eq, Structural)]
pub enum Qwen35LinearKind {
    /// A projection of an unpacked checkpoint.
    Legacy,
    Affine,
    /// Affine, on the allowlist of the kernels for two to four rows.
    PinnedM234Affine,
    /// Affine, on the allowlist of the kernel for two rows.
    PinnedM2Affine,
    AffineRows,
    Q6Dual,
    Gguf,
    GgufRows,
}

impl Qwen35LinearKind {
    /// Whether the projection is affine and on no drafter allowlist.
    pub open spec fn plain_affine(self) -> bool {
        self == Qwen35LinearKind::Affine || self == Qwen35LinearKind::PinnedM234Affine
    }

    /// Whether the projection can take a sigmoid-gated half-precision input.
    pub fn supports_high_m_sigmoid_gate_f16(self) -> (supported: bool)
        ensures
            supported == self.plain_affine(),
    {
        self.is_affine()
    }

    pub fn is_affine(self) -> (affine: bool)
        ensures
            affine == self.plain_affine(),
    {
        matches!(self, Qwen35LinearKind::Affine | Qwen35LinearKind::PinnedM234Affine)
    }

    pub fn is_m2_affine(self) -> (affine: bool)
        ensures
            affine == (self == Qwen35LinearKind::PinnedM2Affine),
    {
        matches!(self, Qwen35LinearKind::PinnedM2Affine)
    }

    /// Whether four rows have to be run as three and one to stay exact.
    pub fn needs_m4_exact_split(self) -> (split: bool)
        ensures
            split == (self == Qwen35LinearKind::Q6Dual || self == Qwen35LinearKind::Gguf),
    {
        matches!(self, Qwen35LinearKind::Q6Dual | Qwen35LinearKind::Gguf)
    }

    /// Whether the fused feed-forward carrier may run this projection together with `other`;
    /// `kernels_pair` is the kernel's own answer for the two matrices.
    pub fn supports_qwen38_mlp_carrier_with(self, other: Self, kernels_pair: bool) -> (supported:
        bool)
        ensures
            supported == (self.plain_affine() && other.plain_affine() && kernels_pair),
    {
        self.is_affine() && other.is_affine() && kernels_pair
    }

    /// For an affine projection, whether it is on the allowlist for two to four rows.
    pub fn into_affine(self) -> (pinned: Option<bool>)
        ensures
            pinned == (if self.plain_affine() {
                Some(self == Qwen35LinearKind::PinnedM234Affine)
            } else {
                None
            }),
    {
        match self {
            Qwen35LinearKind::Affine => Some(false),
            Qwen35LinearKind::PinnedM234Affine => Some(true),
            _ => None,
        }
    }

    /// How a selection of output rows of this projection is kept; `None` when rows cannot be
    /// selected.
    pub fn select_gguf_rows(self) -> (rows: Option<Self>)
        ensures
            rows == (match self {
                Qwen35LinearKind::Affine
                | Qwen35LinearKind::PinnedM234Affine
                | Qwen35LinearKind::PinnedM2Affine => Some(Qwen35LinearKind::AffineRows),
                Qwen35LinearKind::Gguf => Some(Qwen35LinearKind::GgufRows),
                _ => None,
            }),
    {
        match self {
            Qwen35LinearKind::Affine
            | Qwen35LinearKind::PinnedM234Affine
            | Qwen35LinearKind::PinnedM2Affine => Some(Qwen35LinearKind::AffineRows),
            Qwen35LinearKind::Gguf => Some(Qwen35LinearKind::GgufRows),
            Qwen35LinearKind::Legacy
            | Qwen35LinearKind::AffineRows
            | Qwen35LinearKind::Q6Dual
            | Qwen35LinearKind::GgufRows => None,
        }
    }
}

/// How to build a projection.
#[derive(Debug, Clone, Copy, PartialEq, Eq, Structural)]
pub struct LinearPlan {
    pub kind: Qwen35LinearKind,
    /// The six-bit kernel, for a projection kept in two representations.
    pub q6_shape: Option<Qwen38Q6Shape>,
    /// Whether scales and offsets are kept in half precision.
    pub f16_sidecars: bool,
    pub qtype: u32,
    pub input: usize,
    pub output: usize,
    pub bytes: ByteRange,
}

/// How to build an embedding table.
#[derive(Debug, Clone, Copy, PartialEq, Eq, Structural)]
pub struct EmbeddingPlan {
    /// Affine groups, or packed as stored.
    pub affine: bool,
    pub qtype: u32,
    pub embedding_dim: usize,
    pub vocab_size: usize,
    pub bytes: ByteRange,
}

/// How to build an unquantised tensor.
#[derive(Debug)]
pub struct NativePlan {
    /// Dimensions, the slowest one first.
    pub shape: Vec<i32>,
    pub bytes: ByteRange,
}

/// How to build the projections of a layer.
#[derive(Debug, Clone, Copy, PartialEq, Eq, Structural)]
pub enum QkvPlan {
    /// One bundle. The kinds are affine, or two representations for six-bit keys and values.
    Bundled { query: LinearPlan, key: LinearPlan, value: LinearPlan },
    /// Three projections of their own.
    Separate { query: LinearPlan, key: LinearPlan, value: LinearPlan },
}

/// What transcoding one tensor took. The time is in nanoseconds.
#[derive(Debug, Clone, Copy, PartialEq, Eq, Structural)]
pub struct TranscodeStats {
    pub source_bytes: usize,
    pub resident_bytes: usize,
    pub peak_active_bytes: usize,
    pub elapsed: u128,
}

/// What loading took so far. Times are in nanoseconds.
#[derive(Debug, Clone, Copy, PartialEq, Eq, Structural)]
pub struct GgufAffineLoadStats {
    pub tensors: usize,
    pub source_bytes: usize,
    pub resident_bytes: usize,
    pub peak_active_bytes: usize,
    pub elapsed: u128,
    pub q6_tensors: usize,
    pub q6_source_bytes: usize,
    pub q6_dense_bytes: usize,
    pub q6_peak_active_bytes: usize,
    pub q6_elapsed: u128,
}

impl Default for GgufAffineLoadStats {
    fn default() -> (stats: Self)
        ensures
            stats.tensors == 0,
            stats.source_bytes == 0,
            stats.resident_bytes == 0,
            stats.peak_active_bytes == 0,
            stats.elapsed == 0,
            stats.q6_tensors == 0,
            stats.q6_source_bytes == 0,
            stats.q6_dense_bytes == 0,
            stats.q6_peak_active_bytes == 0,
            stats.q6_elapsed == 0,
    {
        GgufAffineLoadStats {
            tensors: 0,
            source_bytes: 0,
            resident_bytes: 0,
            peak_active_bytes: 0,
            elapsed: 0,
            q6_tensors: 0,
            q6_source_bytes: 0,
            q6_dense_bytes: 0,
            q6_peak_active_bytes: 0,
            q6_elapsed: 0,
        }
    }
}

impl GgufAffineLoadStats {
    /// Counts an affine tensor.
    pub fn record_affine(&mut self, transcode: TranscodeStats)
        requires
            old(self).tensors < usize::MAX,
            old(self).source_bytes + transcode.source_bytes <= usize::MAX,
            old(self).resident_bytes + transcode.resident_bytes <= usize::MAX,
            old(self).elapsed + transcode.elapsed <= u128::MAX,
        ensures
            *final(self) == (GgufAffineLoadStats {
                tensors: (old(self).tensors + 1) as usize,
                source_bytes: (old(self).source_bytes + transcode.source_bytes) as usize,
                resident_bytes: (old(self).resident_bytes + transcode.resident_bytes) as usize,
                peak_active_bytes: if old(self).peak_active_bytes < transcode.peak_active_bytes {
                    transcode.peak_active_bytes
                } else {
                    old(self).peak_active_bytes
                },
                elapsed: (old(self).elapsed + transcode.elapsed) as u128,
                ..*old(self)
            }),
    {
        self.tensors = self.tensors + 1;
        self.source_bytes = self.source_bytes + transcode.source_bytes;
        self.resident_bytes = self.resident_bytes + transcode.resident_bytes;
        if self.peak_active_bytes < transcode.peak_active_bytes {
            self.peak_active_bytes = transcode.peak_active_bytes;
        }
        self.elapsed = self.elapsed + transcode.elapsed;
    }

    /// Counts a six-bit tensor.
    pub fn record_q6(&mut self, transcode: TranscodeStats)
        requires
            old(self).q6_tensors < usize::MAX,
            old(self).q6_source_bytes + transcode.source_bytes <= usize::MAX,
            old(self).q6_dense_bytes + transcode.resident_bytes <= usize::MAX,
            old(self).q6_elapsed + transcode.elapsed <= u128::MAX,
        ensures
            *final(self) == (GgufAffineLoadStats {
                q6_tensors: (old(self).q6_tensors + 1) as usize,
                q6_source_bytes: (old(self).q6_source_bytes + transcode.source_bytes) as usize,
                q6_dense_bytes: (old(self).q6_dense_bytes + transcode.resident_bytes) as usize,
                q6_peak_active_bytes: if old(self).q6_peak_active_bytes
                    < transcode.peak_active_bytes {
                    transcode.peak_active_bytes
                } else {
                    old(self).q6_peak_active_bytes
                },
                q6_elapsed: (old(self).q6_elapsed + transcode.elapsed) as u128,
                ..*old(self)
            }),
    {
        self.q6_tensors = self.q6_tensors + 1;
        self.q6_source_bytes = self.q6_source_bytes + transcode.source_bytes;
        self.q6_dense_bytes = self.q6_dense_bytes + transcode.resident_bytes;
        if self.q6_peak_active_bytes < transcode.peak_active_bytes {
            self.q6_peak_active_bytes = transcode.peak_active_bytes;
        }
        self.q6_elapsed = self.q6_elapsed + transcode.elapsed;
    }
}

/// Bookkeeping of a load: which tensors were taken, and which features are on.
#[derive(Debug)]
pub struct GgufWeightSource {
    target_used: Vec<bool>,
    mtp_used: Vec<bool>,
    /// Types that the kernels can read.
    known_qtypes: Vec<u32>,
    enable_m234: bool,
    enable_fusion: bool,
    mixed_q5_sidecars: bool,
    enable_mlp_carrier: bool,
    /// Whether the fused kernels exist on this machine.
    fused_kernels: bool,
}

impl GgufWeightSource {
    pub closed spec fn wf(&self) -> bool {
        self.target_used@.len() == TARGET_PLAN_SLOTS && self.mtp_used@.len() == MTP_PLAN_SLOTS
    }

    /// Whether a tensor was taken.
    pub closed spec fn used(&self, slot: PinnedSlot) -> bool {
        match slot {
            PinnedSlot::Target(index) => self.target_used@[index as int],
            PinnedSlot::Mtp(index) => self.mtp_used@[index as int],
        }
    }

    pub closed spec fn knows(&self, qtype: u32) -> bool {
        self.known_qtypes@.contains(qtype)
    }

    pub closed spec fn m234(&self) -> bool {
        self.enable_m234
    }

    pub closed spec fn fusion(&self) -> bool {
        self.enable_fusion && self.fused_kernels
    }

    pub closed spec fn mlp_carrier(&self) -> bool {
        self.enable_fusion && self.enable_mlp_carrier && self.fused_kernels
    }

    pub closed spec fn sidecars(&self) -> bool {
        self.mixed_q5_sidecars
    }

    /// What no load changes.
    pub open spec fn same_features(&self, other: &Self) -> bool {
        &&& forall|qtype: u32| self.knows(qtype) == other.knows(qtype)
        &&& self.m234() == other.m234()
        &&& self.fusion() == other.fusion()
        &&& self.mlp_carrier() == other.mlp_carrier()
        &&& self.sidecars() == other.sidecars()
    }

    /// `slot` was taken, nothing else changed.
    pub open spec fn took(&self, before: &Self, slot: PinnedSlot) -> bool {
        forall|other: PinnedSlot| #[trigger]
            slot_in_range(other) ==> self.used(other) == (other == slot || before.used(other))
    }

    /// The same tensors were taken.
    pub open spec fn took_nothing(&self, before: &Self) -> bool {
        forall|other: PinnedSlot| #[trigger]
            slot_in_range(other) ==> self.used(other) == before.used(other)
    }

    /// A source that nothing was taken from yet.
    pub fn open_with_features(
        enable_m234: bool,
        enable_fusion: bool,
        mixed_q5_sidecars: bool,
        enable_mlp_carrier: bool,
        fused_kernels: bool,
        known_qtypes: Vec<u32>,
    ) -> (source: Self)
        ensures
            source.wf(),
            forall|slot: PinnedSlot| #[trigger] slot_in_range(slot) ==> !source.used(slot),
            forall|qtype: u32| source.knows(qtype) == #[trigger] known_qtypes@.contains(qtype),
            source.m234() == enable_m234,
            source.fusion() == (enable_fusion && fused_kernels),
            source.mlp_carrier() == (enable_fusion && enable_mlp_carrier && fused_kernels),
            source.sidecars() == mixed_q5_sidecars,
    {
        let mut target_used: Vec<bool> = Vec::new();
        target_used.resize(TARGET_PLAN_SLOTS, false);
        let mut mtp_used: Vec<bool> = Vec::new();
        mtp_used.resize(MTP_PLAN_SLOTS, false);
        GgufWeightSource {
            target_used,
            mtp_used,
            known_qtypes,
            enable_m234,
            enable_fusion,
            mixed_q5_sidecars,
            enable_mlp_carrier,
            fused_kernels,
        }
    }

    /// Whether fused kernels are used.
    pub fn qwen38_fusion_enabled(&self) -> (enabled: bool)
        ensures
            enabled == self.fusion(),
    {
        self.enable_fusion && self.fused_kernels
    }

    /// Whether the fused feed-forward carrier is used.
    pub fn qwen38_mlp_carrier_enabled(&self) -> (enabled: bool)
        ensures
            enabled == self.mlp_carrier(),
            enabled ==> self.fusion(),
    {
        self.enable_fusion && self.enable_mlp_carrier && self.fused_kernels
    }

    fn knows_qtype(&self, qtype: u32) -> (known: bool)
        ensures
            known == self.knows(qtype),
    {
        let mut index: usize = 0;
        while index < self.known_qtypes.len()
            invariant
                index <= self.known_qtypes@.len(),
                forall|i: int| 0 <= i < index ==> self.known_qtypes@[i] != qtype,
            decreases self.known_qtypes@.len() - index,
        {
            if self.known_qtypes[index] == qtype {
                assert(self.known_qtypes@[index as int] == qtype);
                return true;
            }
            index = index + 1;
        }
        false
    }

    /// Takes a tensor and tells where its bytes are. A tensor is taken at most once, and counts as
    /// taken even when its bytes turn out to be missing.
    pub fn lookup(&mut self, slot: PinnedSlot, tensor: &GgufTensorInfo, map_len: usize) -> (result:
        Result<ByteRange, WeightError>)
        requires
            old(self).wf(),
            slot_in_range(slot),
        ensures
            final(self).wf(),
            final(self).same_features(old(self)),
            final(self).took(old(self), slot),
            result == (if old(self).used(slot) {
                Err(WeightError::ConsumedTwice(slot))
            } else {
                tensor_range(slot, *tensor, map_len as nat)
            }),
    {
        let taken = match slot {
            PinnedSlot::Target(index) => {
                let taken = self.target_used[index];
                self.target_used.set(index, true);
                taken
            },
            PinnedSlot::Mtp(index) => {
                let taken = self.mtp_used[index];
                self.mtp_used.set(index, true);
                taken
            },
        };
        if taken {
            return Err(WeightError::ConsumedTwice(slot));
        }
        tensor_bytes(slot, tensor, map_len)
    }

    /// The tensors of both files, the target's first.
    pub open spec fn all_slots() -> Seq<PinnedSlot> {
        Seq::new(
            (TARGET_PLAN_SLOTS + MTP_PLAN_SLOTS) as nat,
            |i: int|
                if i < TARGET_PLAN_SLOTS {
                    PinnedSlot::Target(i as usize)
                } else {
                    PinnedSlot::Mtp((i - TARGET_PLAN_SLOTS) as usize)
                },
        )
    }

    /// Whether a tensor is left out of memory on purpose.
    pub open spec fn nonresident(
        slot: PinnedSlot,
        target_nonresident: Seq<usize>,
        mtp_nonresident: Seq<usize>,
    ) -> bool {
        match slot {
            PinnedSlot::Target(index) => target_nonresident.contains(index),
            PinnedSlot::Mtp(index) => mtp_nonresident.contains(index),
        }
    }

    /// The tensors that should have been taken and were not, in file order.
    pub open spec fn missing(
        &self,
        target_nonresident: Seq<usize>,
        mtp_nonresident: Seq<usize>,
    ) -> Seq<PinnedSlot> {
        Self::all_slots().filter(
            |slot: PinnedSlot|
                !self.used(slot) && !Self::nonresident(slot, target_nonresident, mtp_nonresident),
        )
    }

    /// Checks at the end of a load that every resident tensor was taken; names the first sixteen
    /// that were not.
    pub fn finish(&self, target_nonresident: &[usize], mtp_nonresident: &[usize]) -> (result: Result<
        (),
        Vec<PinnedSlot>,
    >)
        requires
            self.wf(),
        ensures
            ({
                let missing = self.missing(target_nonresident@, mtp_nonresident@);
                match result {
                    Ok(_) => missing.len() == 0,
                    Err(first) => missing.len() > 0 && first@ == missing.take(
                        vstd::math::min(missing.len() as int, 16),
                    ),
                }
            }),
            result is Ok <==> forall|slot: PinnedSlot| #[trigger]
                slot_in_range(slot) ==> self.used(slot) || Self::nonresident(
                    slot,
                    target_nonresident@,
                    mtp_nonresident@,
                ),
    {
        let ghost all = Self::all_slots();
        let ghost keep = |slot: PinnedSlot|
            !self.used(slot) && !Self::nonresident(slot, target_nonresident@, mtp_nonresident@);
        let mut first: Vec<PinnedSlot> = Vec::new();
        let mut index: usize = 0;
        reveal(Seq::filter);
        assert(all.take(0).filter(keep) == Seq::<PinnedSlot>::empty());
        while index < TARGET_PLAN_SLOTS + MTP_PLAN_SLOTS
            invariant
                self.wf(),
                all == Self::all_slots(),
                keep == (|slot: PinnedSlot|
                    !self.used(slot) && !Self::nonresident(
                        slot,
                        target_nonresident@,
                        mtp_nonresident@,
                    )),
                index <= TARGET_PLAN_SLOTS + MTP_PLAN_SLOTS,
                first@ == all.take(index as int).filter(keep).take(
                    vstd::math::min(all.take(index as int).filter(keep).len() as int, 16),
                ),
                forall|i: int| 0 <= i < index ==> keep(#[trigger] all[i]) ==> first@.len() > 0,
                first@.len() > 0 ==> exists|i: int| 0 <= i < index && keep(#[trigger] all[i]),
            decreases TARGET_PLAN_SLOTS + MTP_PLAN_SLOTS - index,
        {
            let slot: PinnedSlot = if index < TARGET_PLAN_SLOTS {
                PinnedSlot::Target(index)
            } else {
                PinnedSlot::Mtp(index - TARGET_PLAN_SLOTS)
            };
            assert(all[index as int] == slot);
            let absent = match slot {
                PinnedSlot::Target(at) => !self.target_used[at] && !contains_index(
                    target_nonresident,
                    at,
                ),
                PinnedSlot::Mtp(at) => !self.mtp_used[at] && !contains_index(mtp_nonresident, at),
            };
            assert(absent == keep(slot));
            let ghost before = all.take(index as int).filter(keep);
            proof {
                assert(all.take(index + 1) == all.take(index as int).push(slot));
                all.take(index as int).lemma_filter_push(slot, keep);
            }
            if absent && first.len() < 16 {
                let ghost earlier = first@;
                first.push(slot);
                assert(before.take(before.len() as int) == before);
                assert(earlier == before);
                assert(before.push(slot).take(before.len() as int + 1) == before.push(slot));
                assert(keep(all[index as int]));
            } else if absent {
                assert(before.push(slot).take(16) == before.take(16));
            }
            index = index + 1;
        }
        assert(all.take(all.len() as int) == all);
        proof {
            assert forall|slot: PinnedSlot| #[trigger] slot_in_range(slot) implies all.contains(
                slot,
            ) by {
                match slot {
                    PinnedSlot::Target(at) => {
                        assert(all[at as int] == slot);
                    },
                    PinnedSlot::Mtp(at) => {
                        assert(all[at + TARGET_PLAN_SLOTS] == slot);
                    },
                }
            }
            if first@.len() == 0 {
                assert forall|slot: PinnedSlot| #[trigger] slot_in_range(slot) implies self.used(
                    slot,
                ) || Self::nonresident(slot, target_nonresident@, mtp_nonresident@) by {
                    assert(all.contains(slot));
                    let i = all.index_of(slot);
                    assert(!keep(all[i]));
                }
            } else {
                let i = choose|i: int| 0 <= i < all.len() && keep(#[trigger] all[i]);
                assert(slot_in_range(all[i]));
            }
        }
        if first.len() == 0 {
            Ok(())
        } else {
            Err(first)
        }
    }

    /// What loading an unquantised tensor comes to, once its bytes are found.
    pub open spec fn native_plan(
        tensor: GgufTensorInfo,
        bytes: ByteRange,
        result: Result<NativePlan, WeightError>,
    ) -> bool {
        match result {
            Ok(plan) => {
                &&& tensor.qtype == QTYPE_F32
                &&& plan.bytes == bytes
                &&& plan.shape@.len() == tensor.dimensions@.len()
                &&& forall|i: int|
                    0 <= i < plan.shape@.len() ==> #[trigger] plan.shape@[i]
                        == tensor.dimensions@[tensor.dimensions@.len() - 1 - i]
            },
            Err(error) => if tensor.qtype != QTYPE_F32 {
                error == WeightError::NotNative
            } else {
                error == WeightError::DimensionOverflow && exists|i: int|
                    0 <= i < tensor.dimensions@.len() && #[trigger] tensor.dimensions@[i]
                        > i32::MAX
            },
        }
    }

    /// Takes an unquantised tensor.
    pub fn load_native(&mut self, slot: PinnedSlot, tensor: &GgufTensorInfo, map_len: usize) -> (result:
        Result<NativePlan, WeightError>)
        requires
            old(self).wf(),
            slot_in_range(slot),
        ensures
            final(self).wf(),
            final(self).same_features(old(self)),
            final(self).took(old(self), slot),
            ({
                let range = tensor_range(slot, *tensor, map_len as nat);
                if old(self).used(slot) {
                    result == Err::<NativePlan, WeightError>(WeightError::ConsumedTwice(slot))
                } else if range is Err {
                    result == Err::<NativePlan, WeightError>(range->Err_0)
                } else {
                    Self::native_plan(*tensor, range->Ok_0, result)
                }
            }),
    {
        let bytes: ByteRange = match self.lookup(slot, tensor, map_len) {
            Ok(bytes) => bytes,
            Err(error) => {
                return Err(error);
            },
        };
        if tensor.qtype != QTYPE_F32 {
            return Err(WeightError::NotNative);
        }
        let rank: usize = tensor.dimensions.len();
        let mut shape: Vec<i32> = Vec::new();
        let mut index: usize = 0;
        while index < rank
            invariant
                rank == tensor.dimensions@.len(),
                index <= rank,
                shape@.len() == index,
                forall|i: int|
                    0 <= i < index ==> #[trigger] shape@[i] == tensor.dimensions@[rank - 1 - i],
                self.wf(),
                self.same_features(old(self)),
                self.took(old(self), slot),
                !old(self).used(slot),
                tensor.qtype == QTYPE_F32,
                tensor_range(slot, *tensor, map_len as nat) == Ok::<ByteRange, WeightError>(bytes),
            decreases rank - index,
        {
            let dimension: u64 = tensor.dimensions[rank - 1 - index];
            if dimension > i32::MAX as u64 {
                assert(tensor.dimensions@[rank - 1 - index] > i32::MAX);
                return Err(WeightError::DimensionOverflow);
            }
            shape.push(dimension as i32);
            index = index + 1;
        }
        Ok(NativePlan { shape, bytes })
    }

    /// What loading a projection comes to, once its bytes are found.
    pub open spec fn linear_plan(
        &self,
        typed_slot: TensorSlot,
        slot: PinnedSlot,
        tensor: GgufTensorInfo,
        bytes: ByteRange,
        plan: Seq<TensorDescriptor>,
    ) -> Result<LinearPlan, WeightError> {
        let m234 = m234_signature(typed_slot, plan);
        let m2 = m2_signature(typed_slot);
        let dimensions = tensor.dimensions@;
        let q6 = q6_kernel(slot, tensor);
        if dimensions.len() != 2 || tensor.qtype == QTYPE_F32 {
            Err(WeightError::NotPacked)
        } else if dimensions[0] > usize::MAX || dimensions[1] > usize::MAX {
            Err(WeightError::DimensionOverflow)
        } else if m234 is Some && !(tensor.qtype == m234->0.qtype && is_pair(
            dimensions,
            m234->0.dimensions,
        )) {
            Err(WeightError::M234DescriptorChanged)
        } else if m2 is Some && !(tensor.qtype == m2->0.qtype && is_pair(
            dimensions,
            m2->0.dimensions,
        )) {
            Err(WeightError::M2DescriptorChanged)
        } else if q6 is Err {
            Err(q6->Err_0)
        } else if !self.knows(tensor.qtype) {
            Err(WeightError::UnknownQType)
        } else if tensor.qtype == QTYPE_Q6_K || affine_qtype(tensor.qtype) {
            Ok(
                LinearPlan {
                    kind: if tensor.qtype == QTYPE_Q6_K {
                        if slot == PinnedSlot::Target(0) {
                            Qwen35LinearKind::Gguf
                        } else {
                            Qwen35LinearKind::Q6Dual
                        }
                    } else if self.m234() && m234 is Some {
                        Qwen35LinearKind::PinnedM234Affine
                    } else if self.m234() && m2 is Some {
                        Qwen35LinearKind::PinnedM2Affine
                    } else {
                        Qwen35LinearKind::Affine
                    },
                    q6_shape: q6->Ok_0,
                    f16_sidecars: self.sidecars() && m234 is Some && (tensor.qtype == 13
                        || tensor.qtype == 21),
                    qtype: tensor.qtype,
                    input: dimensions[0] as usize,
                    output: dimensions[1] as usize,
                    bytes,
                },
            )
        } else {
            Err(WeightError::NoResidentRepresentation)
        }
    }

    /// What taking a projection out of `slot` comes to.
    pub open spec fn linear_result(
        &self,
        typed_slot: TensorSlot,
        slot: PinnedSlot,
        tensor: GgufTensorInfo,
        map_len: nat,
        plan: Seq<TensorDescriptor>,
    ) -> Result<LinearPlan, WeightError> {
        let range = tensor_range(slot, tensor, map_len);
        if self.used(slot) {
            Err(WeightError::ConsumedTwice(slot))
        } else if range is Err {
            Err(range->Err_0)
        } else {
            self.linear_plan(typed_slot, slot, tensor, range->Ok_0, plan)
        }
    }

    /// Takes a projection and decides how it is kept. Allowlisted tensors have to stand where
    /// their signature says and to be of the signature's type and dimensions.
    pub fn load_linear(
        &mut self,
        typed_slot: TensorSlot,
        slot: PinnedSlot,
        tensor: &GgufTensorInfo,
        map_len: usize,
        plan: &[TensorDescriptor],
    ) -> (result: Result<LinearPlan, WeightError>)
        requires
            old(self).wf(),
            slot_in_range(slot),
            plan@.len() == TARGET_PLAN_SLOTS,
        ensures
            final(self).wf(),
            final(self).same_features(old(self)),
            ({
                let m234 = m234_signature(typed_slot, plan@);
                let m2 = m2_signature(typed_slot);
                if m234 is Some && slot != PinnedSlot::Target(m234->0.target_slot) {
                    &&& result == Err::<LinearPlan, WeightError>(WeightError::M234SlotChanged)
                    &&& final(self).took_nothing(old(self))
                } else if m2 is Some && slot != PinnedSlot::Mtp(m2->0.mtp_slot) {
                    &&& result == Err::<LinearPlan, WeightError>(WeightError::M2SlotChanged)
                    &&& final(self).took_nothing(old(self))
                } else {
                    &&& final(self).took(old(self), slot)
                    &&& result == old(self).linear_result(
                        typed_slot,
                        slot,
                        *tensor,
                        map_len as nat,
                        plan@,
                    )
                }
            }),
    {
        let m234 = pinned_m234_affine_signature(typed_slot, plan);
        let m2 = pinned_m2_affine_signature(typed_slot);
        if let Some(signature) = m234 {
            if slot != PinnedSlot::Target(signature.target_slot) {
                return Err(WeightError::M234SlotChanged);
            }
        }
        if let Some(signature) = m2 {
            if slot != PinnedSlot::Mtp(signature.mtp_slot) {
                return Err(WeightError::M2SlotChanged);
            }
        }
        let bytes: ByteRange = match self.lookup(slot, tensor, map_len) {
            Ok(bytes) => bytes,
            Err(error) => {
                return Err(error);
            },
        };
        if tensor.dimensions.len() != 2 || tensor.qtype == QTYPE_F32 {
            return Err(WeightError::NotPacked);
        }
        if tensor.dimensions[0] > usize::MAX as u64 || tensor.dimensions[1] > usize::MAX as u64 {
            return Err(WeightError::DimensionOverflow);
        }
        let input: usize = tensor.dimensions[0] as usize;
        let output: usize = tensor.dimensions[1] as usize;
        if let Some(signature) = m234 {
            if tensor.qtype != signature.qtype || !dimensions_are(
                &tensor.dimensions,
                signature.dimensions,
            ) {
                return Err(WeightError::M234DescriptorChanged);
            }
        }
        if let Some(signature) = m2 {
            if tensor.qtype != signature.qtype || !dimensions_are(
                &tensor.dimensions,
                signature.dimensions,
            ) {
                return Err(WeightError::M2DescriptorChanged);
            }
        }
        let q6_shape: Option<Qwen38Q6Shape> = match pinned_q6_shape(slot, tensor) {
            Ok(shape) => shape,
            Err(error) => {
                return Err(error);
            },
        };
        if !self.knows_qtype(tensor.qtype) {
            return Err(WeightError::UnknownQType);
        }
        let mut f16_sidecars = false;
        let kind: Qwen35LinearKind = if q6_shape.is_some() {
            Qwen35LinearKind::Q6Dual
        } else if pinned_affine_qtype(tensor.qtype) {
            f16_sidecars =
            self.mixed_q5_sidecars && m234.is_some() && (tensor.qtype == 13 || tensor.qtype == 21);
            if self.enable_m234 && m234.is_some() {
                Qwen35LinearKind::PinnedM234Affine
            } else if self.enable_m234 && m2.is_some() {
                Qwen35LinearKind::PinnedM2Affine
            } else {
                Qwen35LinearKind::Affine
            }
        } else if slot == PinnedSlot::Target(0) && tensor.qtype == QTYPE_Q6_K {
            Qwen35LinearKind::Gguf
        } else {
            return Err(WeightError::NoResidentRepresentation);
        };
        Ok(LinearPlan { kind, q6_shape, f16_sidecars, qtype: tensor.qtype, input, output, bytes })
    }

    /// What loading an embedding comes to, once its bytes are found.
    pub open spec fn embedding_plan(
        &self,
        tensor: GgufTensorInfo,
        bytes: ByteRange,
    ) -> Result<EmbeddingPlan, WeightError> {
        let dimensions = tensor.dimensions@;
        if dimensions.len() != 2 {
            Err(WeightError::NotRankTwo)
        } else if dimensions[0] > usize::MAX || dimensions[1] > usize::MAX {
            Err(WeightError::DimensionOverflow)
        } else if !self.knows(tensor.qtype) {
            Err(WeightError::UnknownQType)
        } else {
            Ok(
                EmbeddingPlan {
                    affine: affine_qtype(tensor.qtype),
                    qtype: tensor.qtype,
                    embedding_dim: dimensions[0] as usize,
                    vocab_size: dimensions[1] as usize,
                    bytes,
                },
            )
        }
    }

    /// Takes an embedding table.
    pub fn load_embedding(&mut self, slot: PinnedSlot, tensor: &GgufTensorInfo, map_len: usize) -> (result:
        Result<EmbeddingPlan, WeightError>)
        requires
            old(self).wf(),
            slot_in_range(slot),
        ensures
            final(self).wf(),
            final(self).same_features(old(self)),
            final(self).took(old(self), slot),
            ({
                let range = tensor_range(slot, *tensor, map_len as nat);
                result == (if old(self).used(slot) {
                    Err(WeightError::ConsumedTwice(slot))
                } else if range is Err {
                    Err(range->Err_0)
                } else {
                    old(self).embedding_plan(*tensor, range->Ok_0)
                })
            }),
    {
        let bytes: ByteRange = match self.lookup(slot, tensor, map_len) {
            Ok(bytes) => bytes,
            Err(error) => {
                return Err(error);
            },
        };
        if tensor.dimensions.len() != 2 {
            return Err(WeightError::NotRankTwo);
        }
        if tensor.dimensions[0] > usize::MAX as u64 || tensor.dimensions[1] > usize::MAX as u64 {
            return Err(WeightError::DimensionOverflow);
        }
        if !self.knows_qtype(tensor.qtype) {
            return Err(WeightError::UnknownQType);
        }
        Ok(
            EmbeddingPlan {
                affine: pinned_affine_qtype(tensor.qtype),
                qtype: tensor.qtype,
                embedding_dim: tensor.dimensions[0] as usize,
                vocab_size: tensor.dimensions[1] as usize,
                bytes,
            },
        )
    }

    /// Types that a bundled query, or key and value, may have.
    pub open spec fn bundle_qtype(qtype: u32, query: bool) -> bool {
        qtype == 8 || qtype == 12 || qtype == 13 || qtype == 23 || (!query && qtype == QTYPE_Q6_K)
    }

    /// What loading a part of a bundle comes to, once its bytes are found.
    pub open spec fn bundle_plan(
        &self,
        expected_qtype: u32,
        expected_output: u64,
        query: bool,
        tensor: GgufTensorInfo,
        bytes: ByteRange,
    ) -> Result<LinearPlan, WeightError> {
        if !is_pair(tensor.dimensions@, (5120, expected_output)) || tensor.qtype != expected_qtype
            || !Self::bundle_qtype(expected_qtype, query) {
            Err(WeightError::QkvDescriptorChanged)
        } else if !self.knows(expected_qtype) {
            Err(WeightError::UnknownQType)
        } else if expected_output > usize::MAX {
            Err(WeightError::DimensionOverflow)
        } else {
            Ok(
                LinearPlan {
                    kind: if expected_qtype == QTYPE_Q6_K {
                        Qwen35LinearKind::Q6Dual
                    } else {
                        Qwen35LinearKind::Affine
                    },
                    q6_shape: if expected_qtype == QTYPE_Q6_K {
                        Some(Qwen38Q6Shape::K5120N1024)
                    } else {
                        None
                    },
                    f16_sidecars: query && self.sidecars() && expected_qtype == 13
                        && expected_output == 12288,
                    qtype: expected_qtype,
                    input: 5120,
                    output: expected_output as usize,
                    bytes,
                },
            )
        }
    }

    /// What taking a part of a bundle comes to, when it stands at `expected_slot`.
    pub open spec fn bundle_result(
        &self,
        expected_slot: usize,
        expected_qtype: u32,
        expected_output: u64,
        query: bool,
        tensor: GgufTensorInfo,
        map_len: nat,
    ) -> Result<LinearPlan, WeightError> {
        let slot = PinnedSlot::Target(expected_slot);
        let range = tensor_range(slot, tensor, map_len);
        if self.used(slot) {
            Err(WeightError::ConsumedTwice(slot))
        } else if range is Err {
            Err(range->Err_0)
        } else {
            self.bundle_plan(expected_qtype, expected_output, query, tensor, range->Ok_0)
        }
    }

    /// What has to hold of a call that takes a part of a bundle.
    pub open spec fn bundle_part_taken(
        &self,
        before: &Self,
        typed_slot: TensorSlot,
        expected_slot: usize,
        expected_qtype: u32,
        expected_output: u64,
        query: bool,
        tensor: GgufTensorInfo,
        map_len: nat,
        result: Result<LinearPlan, WeightError>,
    ) -> bool {
        let slot = slot_of(typed_slot);
        if slot is Err {
            &&& result == Err::<LinearPlan, WeightError>(WeightError::Slot(slot->Err_0))
            &&& self.took_nothing(before)
        } else if slot->Ok_0 != PinnedSlot::Target(expected_slot) {
            &&& result == Err::<LinearPlan, WeightError>(WeightError::QkvSlotChanged)
            &&& self.took_nothing(before)
        } else {
            &&& result == before.bundle_result(
                expected_slot,
                expected_qtype,
                expected_output,
                query,
                tensor,
                map_len,
            )
            &&& self.took(before, slot->Ok_0)
        }
    }

    fn load_bundle_part(
        &mut self,
        typed_slot: TensorSlot,
        expected_slot: usize,
        expected_qtype: u32,
        expected_output: u64,
        query: bool,
        tensor: &GgufTensorInfo,
        map_len: usize,
    ) -> (result: Result<LinearPlan, WeightError>)
        requires
            old(self).wf(),
        ensures
            final(self).wf(),
            final(self).same_features(old(self)),
            final(self).bundle_part_taken(
                old(self),
                typed_slot,
                expected_slot,
                expected_qtype,
                expected_output,
                query,
                *tensor,
                map_len as nat,
                result,
            ),
    {
        let slot: PinnedSlot = match pinned_slot(typed_slot) {
            Ok(slot) => slot,
            Err(error) => {
                return Err(WeightError::Slot(error));
            },
        };
        if slot != PinnedSlot::Target(expected_slot) {
            return Err(WeightError::QkvSlotChanged);
        }
        proof {
            pinned_slots_are_in_range(typed_slot);
        }
        let bytes: ByteRange = match self.lookup(slot, tensor, map_len) {
            Ok(bytes) => bytes,
            Err(error) => {
                return Err(error);
            },
        };
        let allowed = expected_qtype == 8 || expected_qtype == 12 || expected_qtype == 13
            || expected_qtype == 23 || (!query && expected_qtype == QTYPE_Q6_K);
        if !dimensions_are(&tensor.dimensions, (5120, expected_output)) || tensor.qtype
            != expected_qtype || !allowed {
            return Err(WeightError::QkvDescriptorChanged);
        }
        if !self.knows_qtype(expected_qtype) {
            return Err(WeightError::UnknownQType);
        }
        if expected_output > usize::MAX as u64 {
            return Err(WeightError::DimensionOverflow);
        }
        let six_bit = expected_qtype == QTYPE_Q6_K;
        Ok(
            LinearPlan {
                kind: if six_bit {
                    Qwen35LinearKind::Q6Dual
                } else {
                    Qwen35LinearKind::Affine
                },
                q6_shape: if six_bit {
                    Some(Qwen38Q6Shape::K5120N1024)
                } else {
                    None
                },
                f16_sidecars: query && self.mixed_q5_sidecars && expected_qtype == 13
                    && expected_output == 12288,
                qtype: expected_qtype,
                input: 5120,
                output: expected_output as usize,
                bytes,
            },
        )
    }

    /// Takes the query projection of a bundle.
    pub fn load_qkv_affine(
        &mut self,
        typed_slot: TensorSlot,
        expected_slot: usize,
        expected_qtype: u32,
        expected_output: u64,
        tensor: &GgufTensorInfo,
        map_len: usize,
    ) -> (result: Result<LinearPlan, WeightError>)
        requires
            old(self).wf(),
        ensures
            final(self).wf(),
            final(self).same_features(old(self)),
            final(self).bundle_part_taken(
                old(self),
                typed_slot,
                expected_slot,
                expected_qtype,
                expected_output,
                true,
                *tensor,
                map_len as nat,
                result,
            ),
    {
        self.load_bundle_part(
            typed_slot,
            expected_slot,
            expected_qtype,
            expected_output,
            true,
            tensor,
            map_len,
        )
    }

    /// Takes the key or the value projection of a bundle.
    pub fn load_qkv_kv(
        &mut self,
        typed_slot: TensorSlot,
        expected_slot: usize,
        expected_qtype: u32,
        tensor: &GgufTensorInfo,
        map_len: usize,
    ) -> (result: Result<LinearPlan, WeightError>)
        requires
            old(self).wf(),
        ensures
            final(self).wf(),
            final(self).same_features(old(self)),
            final(self).bundle_part_taken(
                old(self),
                typed_slot,
                expected_slot,
                expected_qtype,
                1024,
                false,
                *tensor,
                map_len as nat,
                result,
            ),
    {
        self.load_bundle_part(typed_slot, expected_slot, expected_qtype, 1024, false, tensor, map_len)
    }

    /// Takes a projection by its role.
    pub fn linear(
        &mut self,
        typed_slot: TensorSlot,
        tensor: &GgufTensorInfo,
        map_len: usize,
        plan: &[TensorDescriptor],
    ) -> (result: Result<LinearPlan, WeightError>)
        requires
            old(self).wf(),
            plan@.len() == TARGET_PLAN_SLOTS,
        ensures
            final(self).wf(),
            final(self).same_features(old(self)),
            ({
                let slot = slot_of(typed_slot);
                if slot is Err {
                    &&& result == Err::<LinearPlan, WeightError>(WeightError::Slot(slot->Err_0))
                    &&& final(self).took_nothing(old(self))
                } else {
                    &&& final(self).took(old(self), slot->Ok_0)
                    &&& result == old(self).linear_result(
                        typed_slot,
                        slot->Ok_0,
                        *tensor,
                        map_len as nat,
                        plan@,
                    )
                }
            }),
    {
        match pinned_slot(typed_slot) {
            Ok(slot) => {
                proof {
                    pinned_slots_are_in_range(typed_slot);
                }
                self.load_linear(typed_slot, slot, tensor, map_len, plan)
            },
            Err(error) => Err(WeightError::Slot(error)),
        }
    }

    /// What taking one projection of an attention layer comes to: as a part of the layer's bundle
    /// when there is one and fused kernels are on, else on its own.
    pub open spec fn qkv_part(
        &self,
        role: ModelRole,
        layer: usize,
        part: LayerTensor,
        tensor: GgufTensorInfo,
        map_len: nat,
        plan: Seq<TensorDescriptor>,
    ) -> Result<LinearPlan, WeightError> {
        let typed_slot = TensorSlot::Layer { role, layer, tensor: part };
        let bundle = qkv_signature(role, layer, plan);
        if self.fusion() && bundle is Some {
            match part {
                LayerTensor::AttentionQuery => self.bundle_result(
                    bundle->0.query_slot,
                    bundle->0.query_qtype,
                    12288,
                    true,
                    tensor,
                    map_len,
                ),
                LayerTensor::AttentionKey => self.bundle_result(
                    bundle->0.key_slot,
                    bundle->0.key_qtype,
                    1024,
                    false,
                    tensor,
                    map_len,
                ),
                _ => self.bundle_result(
                    bundle->0.value_slot,
                    bundle->0.value_qtype,
                    1024,
                    false,
                    tensor,
                    map_len,
                ),
            }
        } else {
            match slot_of(typed_slot) {
                Ok(slot) => self.linear_result(typed_slot, slot, tensor, map_len, plan),
                Err(error) => Err(WeightError::Slot(error)),
            }
        }
    }

    /// Takes the three projections of an attention layer, query first. They are bundled when
    /// fused kernels are on and the plan shows the pinned bundle of the layer. When a projection
    /// cannot be loaded, the ones after it are left alone.
    pub fn qkv(
        &mut self,
        role: ModelRole,
        layer: usize,
        query: &GgufTensorInfo,
        key: &GgufTensorInfo,
        value: &GgufTensorInfo,
        map_len: usize,
        plan: &[TensorDescriptor],
    ) -> (result: Result<QkvPlan, WeightError>)
        requires
            old(self).wf(),
            plan@.len() == TARGET_PLAN_SLOTS,
        ensures
            final(self).wf(),
            final(self).same_features(old(self)),
            ({
                let length = map_len as nat;
                let q = old(self).qkv_part(
                    role,
                    layer,
                    LayerTensor::AttentionQuery,
                    *query,
                    length,
                    plan@,
                );
                let k = old(self).qkv_part(
                    role,
                    layer,
                    LayerTensor::AttentionKey,
                    *key,
                    length,
                    plan@,
                );
                let v = old(self).qkv_part(
                    role,
                    layer,
                    LayerTensor::AttentionValue,
                    *value,
                    length,
                    plan@,
                );
                &&& result == (if q is Err {
                    Err(q->Err_0)
                } else if k is Err {
                    Err(k->Err_0)
                } else if v is Err {
                    Err(v->Err_0)
                } else if old(self).fusion() && qkv_signature(role, layer, plan@) is Some {
                    Ok(QkvPlan::Bundled { query: q->Ok_0, key: k->Ok_0, value: v->Ok_0 })
                } else {
                    Ok(QkvPlan::Separate { query: q->Ok_0, key: k->Ok_0, value: v->Ok_0 })
                })
                &&& forall|other: PinnedSlot| #[trigger]
                    slot_in_range(other) ==> final(self).used(other) == {
                        ||| old(self).used(other)
                        ||| Ok::<PinnedSlot, SlotError>(other) == slot_of(
                            TensorSlot::Layer { role, layer, tensor: LayerTensor::AttentionQuery },
                        )
                        ||| q is Ok && Ok::<PinnedSlot, SlotError>(other) == slot_of(
                            TensorSlot::Layer { role, layer, tensor: LayerTensor::AttentionKey },
                        )
                        ||| q is Ok && k is Ok && Ok::<PinnedSlot, SlotError>(other) == slot_of(
                            TensorSlot::Layer { role, layer, tensor: LayerTensor::AttentionValue },
                        )
                    }
            }),
    {
        let query_slot = TensorSlot::Layer { role, layer, tensor: LayerTensor::AttentionQuery };
        let key_slot = TensorSlot::Layer { role, layer, tensor: LayerTensor::AttentionKey };
        let value_slot = TensorSlot::Layer { role, layer, tensor: LayerTensor::AttentionValue };
        proof {
            if slot_of(query_slot) is Ok {
                pinned_slots_are_in_range(query_slot);
                pinned_slots_are_in_range(key_slot);
                pinned_slots_are_in_range(value_slot);
                if slot_of(query_slot) == slot_of(key_slot) {
                    pinned_slots_are_distinct(query_slot, key_slot);
                }
                if slot_of(query_slot) == slot_of(value_slot) {
                    pinned_slots_are_distinct(query_slot, value_slot);
                }
                if slot_of(key_slot) == slot_of(value_slot) {
                    pinned_slots_are_distinct(key_slot, value_slot);
                }
            }
        }
        if self.qwen38_fusion_enabled() {
            if let Some(signature) = pinned_qkv_bundle_signature(role, layer, plan) {
                proof {
                    qkv_bundle_uses_layer_slots(role, layer, plan@);
                }
                let query_plan: LinearPlan = match self.load_qkv_affine(
                    query_slot,
                    signature.query_slot,
                    signature.query_qtype,
                    12288,
                    query,
                    map_len,
                ) {
                    Ok(part) => part,
                    Err(error) => {
                        return Err(error);
                    },
                };
                let key_plan: LinearPlan = match self.load_qkv_kv(
                    key_slot,
                    signature.key_slot,
                    signature.key_qtype,
                    key,
                    map_len,
                ) {
                    Ok(part) => part,
                    Err(error) => {
                        return Err(error);
                    },
                };
                let value_plan: LinearPlan = match self.load_qkv_kv(
                    value_slot,
                    signature.value_slot,
                    signature.value_qtype,
                    value,
                    map_len,
                ) {
                    Ok(part) => part,
                    Err(error) => {
                        return Err(error);
                    },
                };
                return Ok(
                    QkvPlan::Bundled { query: query_plan, key: key_plan, value: value_plan },
                );
            }
        }
        let query_plan: LinearPlan = match self.linear(query_slot, query, map_len, plan) {
            Ok(part) => part,
            Err(error) => {
                return Err(error);
            },
        };
        let key_plan: LinearPlan = match self.linear(key_slot, key, map_len, plan) {
            Ok(part) => part,
            Err(error) => {
                return Err(error);
            },
        };
        let value_plan: LinearPlan = match self.linear(value_slot, value, map_len, plan) {
            Ok(part) => part,
            Err(error) => {
                return Err(error);
            },
        };
        Ok(QkvPlan::Separate { query: query_plan, key: key_plan, value: value_plan })
    }
}

fn contains_index(indices: &[usize], index: usize) -> (found: bool)
    ensures
        found == indices@.contains(index),
{
    let mut at: usize = 0;
    while at < indices.len()
        invariant
            at <= indices@.len(),
            forall|i: int| 0 <= i < at ==> indices@[i] != index,
        decreases indices@.len() - at,
    {
        if indices[at] == index {
            assert(indices@[at as int] == index);
            return true;
        }
        at = at + 1;
    }
    false
}

} // verus!
