//! Buffer layout arithmetic and the per-dispatch resource tables.

use vstd::arithmetic::div_mod::{
    lemma_fundamental_div_mod, lemma_mod_multiples_basic, lemma_mod_self_0, lemma_small_mod,
};
use crate::events::Pass;
use crate::pipeline_cache::{
    ensure_pipelines, ensured_all, CachedComputePipelineId, PipelineCache, PipelineSource,
    PipelineSourceView,
};
use crate::traits::{
    entry_names, shader_def_views, AssetId, ComputeTrait, PushConstantRange, ShaderDefVal,
};
use std::marker::PhantomData;
use vstd::prelude::*;

verus! {

/// Row alignment, in bytes, that a texture-to-buffer copy demands of each row.
pub const COPY_BYTES_PER_ROW_ALIGNMENT: usize = 256;

/// Reads `wgpu::COPY_BYTES_PER_ROW_ALIGNMENT`, the alignment that the device
/// demands of the rows of a copy between a texture and a buffer.  It is the
/// constant 256.
#[verifier::external_body]
fn copy_row_alignment() -> (align: usize)
    ensures
        align == COPY_BYTES_PER_ROW_ALIGNMENT,
{
    wgpu::COPY_BYTES_PER_ROW_ALIGNMENT as usize
}

/// `n / d` rounded up.
pub open spec fn ceil_div(n: nat, d: nat) -> nat
    recommends
        d > 0,
{
    if n % d == 0 {
        n / d
    } else {
        n / d + 1
    }
}

/// The number of bytes a row of `unpadded` bytes occupies once it is padded to
/// a multiple of `align`.
pub open spec fn padded_row_bytes(unpadded: nat, align: nat) -> nat
    recommends
        align > 0,
{
    ceil_div(unpadded, align) * align
}

/// The padding that has to follow `unpadded` bytes to reach
/// [`padded_row_bytes`].
pub open spec fn row_padding(unpadded: nat, align: nat) -> nat
    recommends
        align > 0,
{
    ((align - unpadded % align) % (align as int)) as nat
}

/// The padded length is the unpadded length plus the padding, and the
/// padding is what the unpadded length lacks to the next multiple of `align`.
pub proof fn lemma_padded_is_unpadded_plus_padding(unpadded: nat, align: nat)
    requires
        align > 0,
    ensures
        padded_row_bytes(unpadded, align) == unpadded + row_padding(unpadded, align),
        row_padding(unpadded, align) == if unpadded % align == 0 {
            0
        } else {
            align - unpadded % align
        },
{
    let q = unpadded / align;
    let r = unpadded % align;
    lemma_fundamental_div_mod(unpadded as int, align as int);
    assert(unpadded == align * q + r);
    if r == 0 {
        lemma_mod_self_0(align as int);
        assert(align * q == q * align) by (nonlinear_arith);
    } else {
        lemma_small_mod((align - r) as nat, align);
        assert((q + 1) * align == align * q + align) by (nonlinear_arith);
    }
}

/// Padding rounds a row up to the next multiple of the alignment: the padded
/// length is a multiple of `align`, is at least the unpadded length, exceeds
/// it by less than `align`, and equals it exactly when the unpadded length is
/// already aligned.
pub proof fn lemma_padded_row_bytes(unpadded: nat, align: nat)
    requires
        align > 0,
    ensures
        padded_row_bytes(unpadded, align) % align == 0,
        padded_row_bytes(unpadded, align) >= unpadded,
        padded_row_bytes(unpadded, align) - unpadded < align,
        padded_row_bytes(unpadded, align) == unpadded <==> unpadded % align == 0,
{
    lemma_padded_is_unpadded_plus_padding(unpadded, align);
    lemma_mod_multiples_basic(ceil_div(unpadded, align) as int, align as int);
}

/// No multiple of `align` lies between the unpadded and the padded length.
pub proof fn lemma_padded_row_bytes_least(unpadded: nat, align: nat, m: nat)
    requires
        align > 0,
        m % align == 0,
        m >= unpadded,
    ensures
        m >= padded_row_bytes(unpadded, align),
{
    let q = unpadded / align;
    let r = unpadded % align;
    let k = m / align;
    lemma_fundamental_div_mod(unpadded as int, align as int);
    lemma_fundamental_div_mod(m as int, align as int);
    assert(m == align * k);
    assert(unpadded == align * q + r);
    if k < ceil_div(unpadded, align) {
        // Then `m` is at most `align * q`, or `align * (q - 1)` where the
        // unpadded length is aligned: below the unpadded length either way.
        if r == 0 {
            assert(align * k <= align * (q - 1)) by (nonlinear_arith)
                requires
                    k <= q - 1,
                    align > 0,
            ;
            assert(align * (q - 1) == align * q - align) by (nonlinear_arith);
        } else {
            assert(align * k <= align * q) by (nonlinear_arith)
                requires
                    k <= q,
                    align > 0,
            ;
        }
        assert(false);
    }
    assert(align * k >= ceil_div(unpadded, align) * align) by (nonlinear_arith)
        requires
            k >= ceil_div(unpadded, align),
            align > 0,
    ;
}

/// Layout of the staging buffer that receives one image.
#[derive(Copy, Clone, Debug, PartialEq, Eq, Structural)]
pub struct BufferDimensions {
    pub width: usize,
    pub height: usize,
    pub unpadded_bytes_per_row: usize,
    pub padded_bytes_per_row: usize,
}

impl BufferDimensions {
    /// The layout of an image of `width` by `height` pixels of
    /// `bytes_per_pixel` bytes each, its rows padded to `align` bytes.
    pub open spec fn spec_with_alignment(
        width: usize,
        height: usize,
        bytes_per_pixel: usize,
        align: usize,
    ) -> Self {
        BufferDimensions {
            width,
            height,
            unpadded_bytes_per_row: (width * bytes_per_pixel) as usize,
            padded_bytes_per_row: padded_row_bytes(
                (width * bytes_per_pixel) as nat,
                align as nat,
            ) as usize,
        }
    }

    /// The layout under the copy row alignment of the platform.
    pub open spec fn spec_new(width: usize, height: usize, bytes_per_pixel: usize) -> Self {
        Self::spec_with_alignment(width, height, bytes_per_pixel, COPY_BYTES_PER_ROW_ALIGNMENT)
    }

    /// The padded rows of such an image have a length that the machine can
    /// hold.
    pub open spec fn fits(width: usize, bytes_per_pixel: usize, align: usize) -> bool {
        padded_row_bytes((width * bytes_per_pixel) as nat, align as nat) <= usize::MAX
    }

    /// A padded row has room for the unpadded row.
    pub open spec fn wf(self) -> bool {
        self.unpadded_bytes_per_row <= self.padded_bytes_per_row
    }

    /// Bytes of a staging buffer that holds every padded row.
    pub open spec fn spec_buffer_size(self) -> nat {
        (self.padded_bytes_per_row * self.height) as nat
    }

    /// The size of the staging buffer is one that a buffer can have.
    pub open spec fn allocatable(self) -> bool {
        self.spec_buffer_size() <= u64::MAX
    }

    /// Layout for an image of `width` by `height` pixels whose rows are padded
    /// to `align` bytes.
    pub fn with_alignment(width: usize, height: usize, bytes_per_pixel: usize, align: usize) -> (dim:
        Self)
        requires
            align > 0,
            Self::fits(width, bytes_per_pixel, align),
        ensures
            dim == Self::spec_with_alignment(width, height, bytes_per_pixel, align),
            dim.unpadded_bytes_per_row == width * bytes_per_pixel,
            dim.padded_bytes_per_row == padded_row_bytes(
                (width * bytes_per_pixel) as nat,
                align as nat,
            ),
            dim.wf(),
    {
        proof {
            lemma_padded_row_bytes((width * bytes_per_pixel) as nat, align as nat);
            lemma_padded_is_unpadded_plus_padding((width * bytes_per_pixel) as nat, align as nat);
            assert(width * bytes_per_pixel >= 0) by (nonlinear_arith);
        }
        let unpadded_bytes_per_row: usize = width * bytes_per_pixel;
        let padded_bytes_per_row_padding: usize = (align - unpadded_bytes_per_row % align) % align;
        let padded_bytes_per_row: usize = unpadded_bytes_per_row + padded_bytes_per_row_padding;
        BufferDimensions { width, height, unpadded_bytes_per_row, padded_bytes_per_row }
    }

    /// Layout for an image of `width` by `height` pixels under the copy row
    /// alignment of the platform.
    pub fn new(width: usize, height: usize, bytes_per_pixel: usize) -> (dim: Self)
        requires
            Self::fits(width, bytes_per_pixel, COPY_BYTES_PER_ROW_ALIGNMENT),
        ensures
            dim == Self::spec_new(width, height, bytes_per_pixel),
            dim.unpadded_bytes_per_row == width * bytes_per_pixel,
            dim.padded_bytes_per_row == padded_row_bytes(
                (width * bytes_per_pixel) as nat,
                COPY_BYTES_PER_ROW_ALIGNMENT as nat,
            ),
            dim.wf(),
    {
        Self::with_alignment(width, height, bytes_per_pixel, copy_row_alignment())
    }

    /// Bytes of a staging buffer that holds every padded row.
    pub fn buffer_size(&self) -> (size: u64)
        requires
            self.allocatable(),
        ensures
            size == self.spec_buffer_size(),
    {
        proof {
            assert(self.padded_bytes_per_row * self.height >= 0) by (nonlinear_arith);
        }
        let row: u64 = self.padded_bytes_per_row as u64;
        let rows: u64 = self.height as u64;
        row * rows
    }

    /// Bytes of a staging buffer that holds every padded row, or `None` where
    /// no buffer can be that large.
    pub fn checked_buffer_size(&self) -> (size: Option<u64>)
        ensures
            size == if self.allocatable() {
                Some(self.spec_buffer_size() as u64)
            } else {
                None
            },
    {
        proof {
            assert(self.padded_bytes_per_row * self.height >= 0) by (nonlinear_arith);
        }
        let row: u64 = self.padded_bytes_per_row as u64;
        let rows: u64 = self.height as u64;
        row.checked_mul(rows)
    }

    /// Layout for such an image, or `None` where the length of its padded
    /// rows is more than the machine can hold.
    pub fn checked_new(width: usize, height: usize, bytes_per_pixel: usize) -> (dim: Option<Self>)
        ensures
            dim == if Self::fits(width, bytes_per_pixel, COPY_BYTES_PER_ROW_ALIGNMENT) {
                Some(Self::spec_new(width, height, bytes_per_pixel))
            } else {
                None
            },
    {
        let align = copy_row_alignment();
        proof {
            assert(width * bytes_per_pixel >= 0) by (nonlinear_arith);
            lemma_padded_is_unpadded_plus_padding((width * bytes_per_pixel) as nat, align as nat);
        }
        match width.checked_mul(bytes_per_pixel) {
            None => None,
            Some(unpadded) => {
                let padding: usize = (align - unpadded % align) % align;
                if unpadded > usize::MAX - padding {
                    None
                } else {
                    Some(Self::new(width, height, bytes_per_pixel))
                }
            },
        }
    }
}

/// Each of `layouts` has room for its rows and a size that a buffer can have.
pub open spec fn layouts_fit(layouts: Seq<(AssetId, BufferDimensions)>) -> bool {
    forall|i: int|
        0 <= i < layouts.len() ==> (#[trigger] layouts[i]).1.wf() && layouts[i].1.allocatable()
}

/// The passes that the device context runs in this cycle, and the layout of
/// the staging buffer of each image that is read back.
#[verifier::reject_recursive_types(T)]
pub struct RenderComputePasses<T: ComputeTrait> {
    pub passes: Vec<Pass>,
    pub images: Vec<(AssetId, BufferDimensions)>,
    pub _marker: PhantomData<T>,
}

/// A resource on the device that a binding slot is bound to.
#[derive(Copy, Clone, Debug, PartialEq, Eq, Structural)]
pub enum OwnedBindingResource {
    /// A buffer of `size` bytes.
    Buffer { id: u64, size: u64 },
    TextureView { id: u64 },
    Sampler { id: u64 },
}

/// What a binding slot of a data type binds.
#[derive(Copy, Clone, Debug, PartialEq, Eq, Structural)]
pub enum BindingKind {
    Uniform,
    StorageBuffer,
    StorageTexture,
}

/// One binding slot of a data type.
#[derive(Copy, Clone, Debug, PartialEq, Eq, Structural)]
pub struct BindingDescriptor {
    pub index: u32,
    pub kind: BindingKind,
    /// The shader stages that see the binding, as a set of bits.
    pub visibility: u32,
    /// Whether the slot is read back after the job has run.
    pub stage: bool,
}

impl BindingDescriptor {
    /// The slot is read back through a staging buffer of its own.  An image
    /// is read back with its rows padded, and is staged with the images.
    pub open spec fn is_staged_buffer(self) -> bool {
        self.stage && !(self.kind is StorageTexture)
    }

    /// Whether the slot is read back through a staging buffer of its own.
    pub fn staged_buffer(&self) -> (staged: bool)
        ensures
            staged == self.is_staged_buffer(),
    {
        self.stage && match self.kind {
            BindingKind::StorageTexture => false,
            _ => true,
        }
    }
}

/// A buffer that the owner can map and read.
#[derive(Copy, Clone, Debug, PartialEq, Eq, Structural)]
pub struct StagingBuffer {
    pub size: u64,
}

/// The staging buffers of the binding slots that are read back, each with
/// the index of its slot.
#[derive(Debug, PartialEq, Eq)]
pub struct StageBuffers {
    pub storage: Vec<(u32, StagingBuffer)>,
}

/// The bindings of one dispatch and the buffers that its results are read
/// back through.
#[verifier::reject_recursive_types(T)]
pub struct PreparedCompute<T: ComputeTrait> {
    /// The resource on the device behind each binding slot.
    pub bindings: Vec<(u32, OwnedBindingResource)>,
    pub bind_group: u64,
    pub staging_buffers: StageBuffers,
    /// The staging buffer of each image that is read back, in the order of
    /// the images.
    pub staging_image_buffers: Vec<StagingBuffer>,
    pub _marker: PhantomData<T>,
}

/// The resource that the first binding of the slot `slot` binds.
pub open spec fn binding_of(bindings: Seq<(u32, OwnedBindingResource)>, slot: u32) -> Option<
    OwnedBindingResource,
>
    decreases bindings.len(),
{
    if bindings.len() == 0 {
        None
    } else if bindings.first().0 == slot {
        Some(bindings.first().1)
    } else {
        binding_of(bindings.drop_first(), slot)
    }
}

/// The buffer on the device that backs the slot `slot`: its name and its
/// size.
pub open spec fn buffer_of(bindings: Seq<(u32, OwnedBindingResource)>, slot: u32) -> Option<
    (u64, u64),
> {
    match binding_of(bindings, slot) {
        Some(OwnedBindingResource::Buffer { id, size }) => Some((id, size)),
        _ => None,
    }
}

/// Looks up the buffer on the device that backs the slot `slot`.
pub fn find_buffer(bindings: &Vec<(u32, OwnedBindingResource)>, slot: u32) -> (buffer: Option<
    (u64, u64),
>)
    ensures
        buffer == buffer_of(bindings@, slot),
{
    let mut i: usize = 0;
    assert(bindings@.skip(0) =~= bindings@);
    while i < bindings.len()
        invariant
            i <= bindings@.len(),
            binding_of(bindings@, slot) == binding_of(bindings@.skip(i as int), slot),
        decreases bindings@.len() - i,
    {
        let (index, resource) = bindings[i];
        assert(bindings@.skip(i as int).first() == bindings@[i as int]);
        assert(bindings@.skip(i as int).drop_first() =~= bindings@.skip(i + 1));
        if index == slot {
            return match resource {
                OwnedBindingResource::Buffer { id, size } => Some((id, size)),
                _ => None,
            };
        }
        i += 1;
    }
    None
}

/// The pipelines of a data type: its entry points, and one pipeline per
/// entry point, in the order of the entry points; with the layout of its bind
/// group.
#[verifier::reject_recursive_types(T)]
pub struct ComputePipeline<T: ComputeTrait> {
    /// The entry points that the data type declared when the pipelines were
    /// queued.
    pub entries: Vec<&'static str>,
    /// The definitions that the data type gave for its shader then.
    pub shader_defs: Vec<ShaderDefVal>,
    /// The ranges of push constants that it gave.
    pub push_constant_ranges: Vec<PushConstantRange>,
    pub pipelines: Vec<CachedComputePipelineId>,
    pub bind_group: Option<u64>,
    pub bind_group_layout: u64,
    pub _marker: PhantomData<T>,
}

impl<T: ComputeTrait> ComputePipeline<T> {
    /// Asks `T` for its entry points, the definitions of its shader and its
    /// push constants, and makes sure that the cache holds a pipeline for
    /// each entry point.
    pub fn new(cache: &mut PipelineCache, shader: AssetId, bind_group_layout: u64) -> (pipeline:
        Self)
        ensures
            pipeline.entries@.len() > 0,
            (final(cache)@, pipeline.pipelines@) == ensured_all(
                old(cache)@,
                PipelineSourceView {
                    layout: bind_group_layout,
                    push_constant_ranges: pipeline.push_constant_ranges@,
                    shader,
                    shader_defs: shader_def_views(pipeline.shader_defs@),
                },
                entry_names(pipeline.entries@),
            ),
            pipeline.bind_group is None,
            pipeline.bind_group_layout == bind_group_layout,
    {
        let entries = T::entry_points();
        let source = PipelineSource {
            layout: bind_group_layout,
            push_constant_ranges: T::push_constant_ranges(),
            shader,
            shader_defs: T::shader_defs(),
        };
        let pipelines = ensure_pipelines(cache, &entries, &source);
        ComputePipeline {
            entries,
            shader_defs: source.shader_defs,
            push_constant_ranges: source.push_constant_ranges,
            pipelines,
            bind_group: None,
            bind_group_layout,
            _marker: PhantomData,
        }
    }
}

} // verus!
