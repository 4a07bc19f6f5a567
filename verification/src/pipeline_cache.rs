//! The compute pipelines that were asked for, and how far each has come.
//!
//! A pipeline is queued once and then compiled by the shader compiler, which
//! reports after each attempt.  A pipeline whose shader source, or an import
//! of it, has not arrived yet is tried again; one whose source is malformed is
//! given up.

use crate::traits::{
    entry_names, same_name, shader_def_views, AssetId, PushConstantRange, ShaderDefVal,
    ShaderDefValView,
};
use vstd::prelude::*;

verus! {

/// Names a pipeline of a [`PipelineCache`].
#[derive(Copy, Clone, Debug, PartialEq, Eq, Structural)]
pub struct CachedComputePipelineId {
    pub index: usize,
}

/// What the pipelines of a data type share: the layout of the bind group,
/// the push constants, and the shader with its definitions.
#[derive(Debug, PartialEq, Eq)]
pub struct PipelineSource {
    /// The layout of the bind group that the pipelines are bound with.
    pub layout: u64,
    pub push_constant_ranges: Vec<PushConstantRange>,
    /// The shader source.
    pub shader: AssetId,
    pub shader_defs: Vec<ShaderDefVal>,
}

/// What a [`PipelineSource`] holds.
pub struct PipelineSourceView {
    pub layout: u64,
    pub push_constant_ranges: Seq<PushConstantRange>,
    pub shader: AssetId,
    pub shader_defs: Seq<ShaderDefValView>,
}

impl View for PipelineSource {
    type V = PipelineSourceView;

    open spec fn view(&self) -> PipelineSourceView {
        PipelineSourceView {
            layout: self.layout,
            push_constant_ranges: self.push_constant_ranges@,
            shader: self.shader,
            shader_defs: shader_def_views(self.shader_defs@),
        }
    }
}

impl PipelineSourceView {
    /// What the pipeline of the entry point `entry_point` is compiled from.
    pub open spec fn descriptor(self, entry_point: Seq<char>) -> ComputePipelineDescriptorView {
        ComputePipelineDescriptorView {
            layout: self.layout,
            push_constant_ranges: self.push_constant_ranges,
            shader: self.shader,
            shader_defs: self.shader_defs,
            entry_point,
        }
    }
}

/// What a compute pipeline is compiled from.
#[derive(Debug, PartialEq, Eq)]
pub struct ComputePipelineDescriptor {
    /// The layout of the bind group that the pipeline is bound with.
    pub layout: u64,
    pub push_constant_ranges: Vec<PushConstantRange>,
    /// The shader source.
    pub shader: AssetId,
    pub shader_defs: Vec<ShaderDefVal>,
    /// The entry point of the shader that the pipeline runs.
    pub entry_point: &'static str,
}

/// What a [`ComputePipelineDescriptor`] holds.
pub struct ComputePipelineDescriptorView {
    pub layout: u64,
    pub push_constant_ranges: Seq<PushConstantRange>,
    pub shader: AssetId,
    pub shader_defs: Seq<ShaderDefValView>,
    pub entry_point: Seq<char>,
}

impl View for ComputePipelineDescriptor {
    type V = ComputePipelineDescriptorView;

    open spec fn view(&self) -> ComputePipelineDescriptorView {
        ComputePipelineDescriptorView {
            layout: self.layout,
            push_constant_ranges: self.push_constant_ranges@,
            shader: self.shader,
            shader_defs: shader_def_views(self.shader_defs@),
            entry_point: self.entry_point@,
        }
    }
}

/// Copies `ranges`.
pub fn clone_ranges(ranges: &Vec<PushConstantRange>) -> (copy: Vec<PushConstantRange>)
    ensures
        copy@ == ranges@,
{
    let mut copy: Vec<PushConstantRange> = Vec::new();
    let mut i: usize = 0;
    while i < ranges.len()
        invariant
            i <= ranges@.len(),
            copy@ == ranges@.take(i as int),
        decreases ranges@.len() - i,
    {
        copy.push(ranges[i]);
        assert(copy@ =~= ranges@.take(i + 1));
        i += 1;
    }
    assert(ranges@.take(i as int) =~= ranges@);
    copy
}

/// Copies `defs`.
pub fn clone_defs(defs: &Vec<ShaderDefVal>) -> (copy: Vec<ShaderDefVal>)
    ensures
        shader_def_views(copy@) == shader_def_views(defs@),
{
    let mut copy: Vec<ShaderDefVal> = Vec::new();
    let mut i: usize = 0;
    assert(shader_def_views(copy@) =~= shader_def_views(defs@).take(0));
    while i < defs.len()
        invariant
            i <= defs@.len(),
            shader_def_views(copy@) == shader_def_views(defs@).take(i as int),
        decreases defs@.len() - i,
    {
        let def = defs[i].clone();
        let ghost before = copy@;
        copy.push(def);
        assert(shader_def_views(copy@) =~= shader_def_views(before).push(def@));
        assert(shader_def_views(copy@) =~= shader_def_views(defs@).take(i + 1));
        i += 1;
    }
    assert(shader_def_views(defs@).take(i as int) =~= shader_def_views(defs@));
    copy
}

/// Whether `a` and `b` hold the same ranges in the same order.
pub fn same_ranges(a: &Vec<PushConstantRange>, b: &Vec<PushConstantRange>) -> (same: bool)
    ensures
        same == (a@ == b@),
{
    if a.len() != b.len() {
        return false;
    }
    let mut i: usize = 0;
    while i < a.len()
        invariant
            i <= a@.len(),
            a@.len() == b@.len(),
            forall|j: int| 0 <= j < i ==> a@[j] == b@[j],
        decreases a@.len() - i,
    {
        if a[i] != b[i] {
            return false;
        }
        i += 1;
    }
    assert(a@ =~= b@);
    true
}

/// Whether `a` and `b` hold the same definitions in the same order.
pub fn same_defs(a: &Vec<ShaderDefVal>, b: &Vec<ShaderDefVal>) -> (same: bool)
    ensures
        same == (shader_def_views(a@) == shader_def_views(b@)),
{
    if a.len() != b.len() {
        assert(shader_def_views(a@).len() != shader_def_views(b@).len());
        return false;
    }
    let mut i: usize = 0;
    while i < a.len()
        invariant
            i <= a@.len(),
            a@.len() == b@.len(),
            forall|j: int| 0 <= j < i ==> shader_def_views(a@)[j] == shader_def_views(b@)[j],
        decreases a@.len() - i,
    {
        assert(shader_def_views(a@)[i as int] == a@[i as int]@);
        assert(shader_def_views(b@)[i as int] == b@[i as int]@);
        if !a[i].same(&b[i]) {
            return false;
        }
        i += 1;
    }
    assert(shader_def_views(a@) =~= shader_def_views(b@));
    true
}

impl PipelineSource {
    /// What the pipeline of the entry point `entry_point` is compiled from.
    pub fn descriptor(&self, entry_point: &'static str) -> (descriptor: ComputePipelineDescriptor)
        ensures
            descriptor@ == self@.descriptor(entry_point@),
    {
        ComputePipelineDescriptor {
            layout: self.layout,
            push_constant_ranges: clone_ranges(&self.push_constant_ranges),
            shader: self.shader,
            shader_defs: clone_defs(&self.shader_defs),
            entry_point,
        }
    }
}

impl Clone for ComputePipelineDescriptor {
    fn clone(&self) -> (descriptor: Self)
        ensures
            descriptor@ == self@,
    {
        ComputePipelineDescriptor {
            layout: self.layout,
            push_constant_ranges: clone_ranges(&self.push_constant_ranges),
            shader: self.shader,
            shader_defs: clone_defs(&self.shader_defs),
            entry_point: self.entry_point,
        }
    }
}

impl ComputePipelineDescriptor {
    /// Whether `other` describes the same pipeline.
    pub fn same(&self, other: &ComputePipelineDescriptor) -> (same: bool)
        ensures
            same == (self@ == other@),
    {
        self.layout == other.layout && self.shader == other.shader && same_name(
            self.entry_point,
            other.entry_point,
        ) && same_ranges(&self.push_constant_ranges, &other.push_constant_ranges) && same_defs(
            &self.shader_defs,
            &other.shader_defs,
        )
    }
}

/// Why an attempt to compile a pipeline failed.
#[derive(Copy, Clone, Debug, PartialEq, Eq, Structural)]
pub enum PipelineCacheError {
    /// The shader source has not been loaded yet.
    ShaderNotLoaded,
    /// The shader imports a module that has not been loaded yet.
    ShaderImportNotYetAvailable,
    /// The shader source could not be processed.
    ProcessShaderError,
    /// The device refused the shader module.
    CreateShaderModule,
}

impl PipelineCacheError {
    /// The attempt failed for want of something that may still arrive.
    pub open spec fn is_transient(self) -> bool {
        self is ShaderNotLoaded || self is ShaderImportNotYetAvailable
    }

    /// Whether the attempt failed for want of something that may still
    /// arrive.
    pub fn transient(&self) -> (transient: bool)
        ensures
            transient == self.is_transient(),
    {
        match self {
            PipelineCacheError::ShaderNotLoaded | PipelineCacheError::ShaderImportNotYetAvailable => true,
            _ => false,
        }
    }
}

/// How far a pipeline has come.
#[derive(Copy, Clone, Debug, PartialEq, Eq, Structural)]
pub enum CachedPipelineState {
    /// No attempt to compile it has reported yet.
    Queued,
    /// It is compiled; the value names the pipeline on the device.
    Ready(u64),
    /// The last attempt to compile it failed.
    Failed(PipelineCacheError),
}

impl CachedPipelineState {
    /// The pipeline is neither compiled nor given up: another attempt is due.
    pub open spec fn is_pending(self) -> bool {
        match self {
            CachedPipelineState::Queued => true,
            CachedPipelineState::Ready(_) => false,
            CachedPipelineState::Failed(e) => e.is_transient(),
        }
    }

    /// The pipeline has been given up.
    pub open spec fn is_failed(self) -> bool {
        match self {
            CachedPipelineState::Failed(e) => !e.is_transient(),
            _ => false,
        }
    }

    /// The pipeline on the device, once it is compiled.
    pub open spec fn pipeline(self) -> Option<u64> {
        match self {
            CachedPipelineState::Ready(p) => Some(p),
            _ => None,
        }
    }

    /// The state after an attempt to compile has reported `outcome`.  A
    /// pipeline that is compiled or given up stays as it is.
    pub open spec fn after(self, outcome: Result<u64, PipelineCacheError>) -> Self {
        if self.is_pending() {
            match outcome {
                Ok(p) => CachedPipelineState::Ready(p),
                Err(e) => CachedPipelineState::Failed(e),
            }
        } else {
            self
        }
    }

    /// Whether another attempt to compile is due.
    pub fn pending(&self) -> (pending: bool)
        ensures
            pending == self.is_pending(),
    {
        match self {
            CachedPipelineState::Queued => true,
            CachedPipelineState::Ready(_) => false,
            CachedPipelineState::Failed(e) => e.transient(),
        }
    }

    /// The state after an attempt to compile has reported `outcome`.
    pub fn step(self, outcome: Result<u64, PipelineCacheError>) -> (next: Self)
        ensures
            next == self.after(outcome),
    {
        if self.pending() {
            match outcome {
                Ok(p) => CachedPipelineState::Ready(p),
                Err(e) => CachedPipelineState::Failed(e),
            }
        } else {
            self
        }
    }
}

/// A pipeline is compiled at most once, and given up at most once: whatever
/// is reported later leaves it as it is.  Until then a report decides: a
/// compiled pipeline is ready, a failure for want of something that may
/// still arrive leaves it pending, and any other failure ends it.
pub proof fn lemma_pipeline_settles(state: CachedPipelineState, outcome: Result<u64, PipelineCacheError>)
    ensures
        !state.is_pending() ==> state.after(outcome) == state,
        state.is_pending() ==> match outcome {
            Ok(pipeline) => state.after(outcome).pipeline() == Some(pipeline),
            Err(e) => {
                &&& state.after(outcome).pipeline() is None
                &&& state.after(outcome).is_pending() == e.is_transient()
                &&& state.after(outcome).is_failed() == !e.is_transient()
            },
        },
        state.pipeline() is None == (state.is_pending() || state.is_failed()),
{
}

/// A pipeline that was asked for.
#[derive(Debug, PartialEq, Eq)]
pub struct CachedPipeline {
    pub descriptor: ComputePipelineDescriptor,
    pub state: CachedPipelineState,
}

/// What a [`CachedPipeline`] holds.
pub struct CachedPipelineView {
    pub descriptor: ComputePipelineDescriptorView,
    pub state: CachedPipelineState,
}

impl View for CachedPipeline {
    type V = CachedPipelineView;

    open spec fn view(&self) -> CachedPipelineView {
        CachedPipelineView { descriptor: self.descriptor@, state: self.state }
    }
}

/// The pipelines that were asked for, in the order in which they were queued.
pub struct PipelineCache {
    pipelines: Vec<CachedPipeline>,
}

impl View for PipelineCache {
    type V = Seq<CachedPipelineView>;

    closed spec fn view(&self) -> Seq<CachedPipelineView> {
        self.pipelines@.map_values(|p: CachedPipeline| p@)
    }
}

/// The state of the pipeline `id` of the cache `pipelines`.  A pipeline that
/// was never queued counts as queued: nothing has been compiled for it.
pub open spec fn state_of(pipelines: Seq<CachedPipelineView>, id: CachedComputePipelineId)
    -> CachedPipelineState {
    if id.index < pipelines.len() {
        pipelines[id.index as int].state
    } else {
        CachedPipelineState::Queued
    }
}

/// The ids of the pending pipelines among the first `n` of `pipelines`.
pub open spec fn pending_ids(pipelines: Seq<CachedPipelineView>, n: nat) -> Seq<
    CachedComputePipelineId,
>
    decreases n,
{
    if n == 0 {
        Seq::empty()
    } else {
        let earlier = pending_ids(pipelines, (n - 1) as nat);
        if n <= pipelines.len() && pipelines[n - 1].state.is_pending() {
            earlier.push(CachedComputePipelineId { index: (n - 1) as usize })
        } else {
            earlier
        }
    }
}

/// The position of the first of `pipelines` that is compiled from
/// `descriptor`.
pub open spec fn position_of(
    pipelines: Seq<CachedPipelineView>,
    descriptor: ComputePipelineDescriptorView,
) -> Option<int>
    decreases pipelines.len(),
{
    if pipelines.len() == 0 {
        None
    } else {
        match position_of(pipelines.drop_last(), descriptor) {
            Some(i) => Some(i),
            None => if pipelines.last().descriptor == descriptor {
                Some(pipelines.len() - 1)
            } else {
                None
            },
        }
    }
}

/// The cache `pipelines` once it holds a pipeline that is compiled from
/// `descriptor`, and the position of that pipeline.  A pipeline that is there
/// is kept as it is; one that is not is queued.
pub open spec fn ensured(
    pipelines: Seq<CachedPipelineView>,
    descriptor: ComputePipelineDescriptorView,
) -> (Seq<CachedPipelineView>, int) {
    match position_of(pipelines, descriptor) {
        Some(i) => (pipelines, i),
        None => (
            pipelines.push(CachedPipelineView { descriptor, state: CachedPipelineState::Queued }),
            pipelines.len() as int,
        ),
    }
}

/// The cache `pipelines` once it holds a pipeline for each of the entry
/// points `entries`, compiled from `source`; and the ids of these pipelines,
/// in the order of the entry points.
pub open spec fn ensured_all(
    pipelines: Seq<CachedPipelineView>,
    source: PipelineSourceView,
    entries: Seq<Seq<char>>,
) -> (Seq<CachedPipelineView>, Seq<CachedComputePipelineId>)
    decreases entries.len(),
{
    if entries.len() == 0 {
        (pipelines, Seq::empty())
    } else {
        let (earlier, ids) = ensured_all(pipelines, source, entries.drop_last());
        let (all, position) = ensured(
            earlier,
            source.descriptor(entries.last()),
        );
        (all, ids.push(CachedComputePipelineId { index: position as usize }))
    }
}

/// A pipeline keeps its position when more pipelines are queued.
pub proof fn lemma_position_is_stable(
    pipelines: Seq<CachedPipelineView>,
    longer: Seq<CachedPipelineView>,
    descriptor: ComputePipelineDescriptorView,
)
    requires
        pipelines.is_prefix_of(longer),
        position_of(pipelines, descriptor) is Some,
    ensures
        position_of(longer, descriptor) == position_of(pipelines, descriptor),
    decreases longer.len(),
{
    if longer.len() > pipelines.len() {
        assert(pipelines.is_prefix_of(longer.drop_last()));
        lemma_position_is_stable(pipelines, longer.drop_last(), descriptor);
    } else {
        assert(longer =~= pipelines);
    }
}

/// A cache only grows when a pipeline is asked for, and then holds that
/// pipeline at the position that is returned.
pub proof fn lemma_ensured(
    pipelines: Seq<CachedPipelineView>,
    descriptor: ComputePipelineDescriptorView,
)
    ensures
        pipelines.is_prefix_of(ensured(pipelines, descriptor).0),
        position_of(ensured(pipelines, descriptor).0, descriptor) == Some(
            ensured(pipelines, descriptor).1,
        ),
        0 <= ensured(pipelines, descriptor).1 < ensured(pipelines, descriptor).0.len(),
        ensured(pipelines, descriptor).0[ensured(pipelines, descriptor).1].descriptor == descriptor,
{
    lemma_position_is_found(pipelines, descriptor);
    if position_of(pipelines, descriptor) is None {
        let longer = ensured(pipelines, descriptor).0;
        assert(longer.drop_last() =~= pipelines);
    }
}

/// A position that is found holds a pipeline that is compiled from the
/// descriptor.
pub proof fn lemma_position_is_found(
    pipelines: Seq<CachedPipelineView>,
    descriptor: ComputePipelineDescriptorView,
)
    ensures
        match position_of(pipelines, descriptor) {
            Some(i) => 0 <= i < pipelines.len() && pipelines[i].descriptor == descriptor,
            None => forall|i: int|
                0 <= i < pipelines.len() ==> (#[trigger] pipelines[i]).descriptor != descriptor,
        },
    decreases pipelines.len(),
{
    if pipelines.len() > 0 {
        lemma_position_is_found(pipelines.drop_last(), descriptor);
        if position_of(pipelines, descriptor) is None {
            assert forall|i: int| 0 <= i < pipelines.len() implies (#[trigger] pipelines[i]).descriptor
                != descriptor by {
                if i < pipelines.len() - 1 {
                    assert(pipelines.drop_last()[i] == pipelines[i]);
                }
            }
        }
    }
}

/// A cache only grows when pipelines are asked for.
pub proof fn lemma_ensured_all_grows(
    pipelines: Seq<CachedPipelineView>,
    source: PipelineSourceView,
    entries: Seq<Seq<char>>,
)
    ensures
        pipelines.is_prefix_of(ensured_all(pipelines, source, entries).0),
        ensured_all(pipelines, source, entries).1.len() == entries.len(),
    decreases entries.len(),
{
    if entries.len() > 0 {
        lemma_ensured_all_grows(pipelines, source, entries.drop_last());
        let earlier = ensured_all(pipelines, source, entries.drop_last()).0;
        lemma_ensured(
            earlier,
            source.descriptor(entries.last()),
        );
    }
}

/// In a cache that holds the pipelines of some entry points, and maybe more,
/// asking for them again queues nothing and gives the same ids.
pub proof fn lemma_ensured_all_is_kept(
    pipelines: Seq<CachedPipelineView>,
    longer: Seq<CachedPipelineView>,
    source: PipelineSourceView,
    entries: Seq<Seq<char>>,
)
    requires
        ensured_all(pipelines, source, entries).0.is_prefix_of(longer),
    ensures
        ensured_all(longer, source, entries) == (
            longer,
            ensured_all(pipelines, source, entries).1,
        ),
    decreases entries.len(),
{
    if entries.len() > 0 {
        let (earlier, ids) = ensured_all(pipelines, source, entries.drop_last());
        let descriptor = source.descriptor(entries.last());
        lemma_ensured(earlier, descriptor);
        assert(earlier.is_prefix_of(longer));
        lemma_ensured_all_is_kept(pipelines, longer, source, entries.drop_last());
        lemma_position_is_stable(ensured(earlier, descriptor).0, longer, descriptor);
    }
}

/// Asking for the pipelines of a data type a second time changes nothing:
/// no pipeline is queued twice, and the ids are the same.
pub proof fn lemma_ensured_all_is_idempotent(
    pipelines: Seq<CachedPipelineView>,
    source: PipelineSourceView,
    entries: Seq<Seq<char>>,
)
    ensures
        ensured_all(
            ensured_all(pipelines, source, entries).0,
            source,
            entries,
        ) == ensured_all(pipelines, source, entries),
{
    lemma_ensured_all_is_kept(
        pipelines,
        ensured_all(pipelines, source, entries).0,
        source,
        entries,
    );
}

impl PipelineCache {
    /// A cache without pipelines.
    pub fn new() -> (cache: Self)
        ensures
            cache@ == Seq::<CachedPipelineView>::empty(),
    {
        let cache = PipelineCache { pipelines: Vec::new() };
        assert(cache@ =~= Seq::empty());
        cache
    }

    /// The number of pipelines that were asked for.
    pub fn len(&self) -> (n: usize)
        ensures
            n == self@.len(),
    {
        self.pipelines.len()
    }

    /// Asks for the pipeline that `descriptor` describes.  It is compiled
    /// later; until then it is queued.
    pub fn queue_compute_pipeline(&mut self, descriptor: ComputePipelineDescriptor) -> (id:
        CachedComputePipelineId)
        ensures
            id.index == old(self)@.len(),
            final(self)@ == old(self)@.push(
                CachedPipelineView { descriptor: descriptor@, state: CachedPipelineState::Queued },
            ),
    {
        let id = CachedComputePipelineId { index: self.pipelines.len() };
        let ghost before = self@;
        let ghost queued = CachedPipelineView {
            descriptor: descriptor@,
            state: CachedPipelineState::Queued,
        };
        self.pipelines.push(CachedPipeline { descriptor, state: CachedPipelineState::Queued });
        assert(self@ =~= before.push(queued));
        id
    }

    /// Looks for a pipeline that is compiled from `descriptor`.
    pub fn find(&self, descriptor: &ComputePipelineDescriptor) -> (id: Option<
        CachedComputePipelineId,
    >)
        ensures
            match id {
                Some(id) => position_of(self@, descriptor@) == Some(id.index as int),
                None => position_of(self@, descriptor@) is None,
            },
    {
        let mut i: usize = 0;
        assert(self@.take(0) =~= Seq::empty());
        while i < self.pipelines.len()
            invariant
                i <= self.pipelines@.len(),
                self@.len() == self.pipelines@.len(),
                position_of(self@.take(i as int), descriptor@) is None,
            decreases self.pipelines@.len() - i,
        {
            let cached = &self.pipelines[i];
            proof {
                assert(self@.take(i + 1).drop_last() =~= self@.take(i as int));
                assert(self@.take(i + 1).last() == cached@);
            }
            if cached.descriptor.same(descriptor) {
                proof {
                    assert(self@.take(i + 1).is_prefix_of(self@));
                    lemma_position_is_stable(self@.take(i + 1), self@, descriptor@);
                }
                return Some(CachedComputePipelineId { index: i });
            }
            i += 1;
        }
        assert(self@.take(i as int) =~= self@);
        None
    }

    /// Asks for the pipeline that `descriptor` describes, unless the cache
    /// holds one: then that one is returned, as far as it has come.
    pub fn ensure_compute_pipeline(&mut self, descriptor: ComputePipelineDescriptor) -> (id:
        CachedComputePipelineId)
        ensures
            (final(self)@, id.index as int) == ensured(old(self)@, descriptor@),
    {
        match self.find(&descriptor) {
            Some(id) => id,
            None => self.queue_compute_pipeline(descriptor),
        }
    }

    /// How far the pipeline `id` has come.
    pub fn get_compute_pipeline_state(&self, id: CachedComputePipelineId) -> (state:
        CachedPipelineState)
        ensures
            state == state_of(self@, id),
    {
        if id.index < self.pipelines.len() {
            self.pipelines[id.index].state
        } else {
            CachedPipelineState::Queued
        }
    }

    /// The pipeline `id` on the device, or `None` while it is not compiled.
    pub fn get_compute_pipeline(&self, id: CachedComputePipelineId) -> (pipeline: Option<u64>)
        ensures
            pipeline == state_of(self@, id).pipeline(),
    {
        match self.get_compute_pipeline_state(id) {
            CachedPipelineState::Ready(p) => Some(p),
            _ => None,
        }
    }

    /// The pipelines for which an attempt to compile is due, in the order in
    /// which they were queued.
    pub fn pending(&self) -> (ids: Vec<CachedComputePipelineId>)
        ensures
            ids@ == pending_ids(self@, self@.len()),
    {
        let mut ids: Vec<CachedComputePipelineId> = Vec::new();
        let mut i: usize = 0;
        while i < self.pipelines.len()
            invariant
                i <= self.pipelines@.len(),
                self@.len() == self.pipelines@.len(),
                ids@ == pending_ids(self@, i as nat),
            decreases self.pipelines@.len() - i,
        {
            assert(self@[i as int].state == self.pipelines@[i as int].state);
            if self.pipelines[i].state.pending() {
                ids.push(CachedComputePipelineId { index: i });
            }
            i += 1;
        }
        ids
    }

    /// Records that an attempt to compile the pipeline `id` has reported
    /// `outcome`.  A report for a pipeline that was never queued changes
    /// nothing.
    pub fn process(&mut self, id: CachedComputePipelineId, outcome: Result<u64, PipelineCacheError>)
        ensures
            final(self)@ == if id.index < old(self)@.len() {
                old(self)@.update(
                    id.index as int,
                    CachedPipelineView {
                        state: old(self)@[id.index as int].state.after(outcome),
                        ..old(self)@[id.index as int]
                    },
                )
            } else {
                old(self)@
            },
    {
        if id.index < self.pipelines.len() {
            let ghost before = self@;
            let cached = &self.pipelines[id.index];
            assert(before[id.index as int] == cached@);
            let next = CachedPipeline {
                descriptor: cached.descriptor.clone(),
                state: cached.state.step(outcome),
            };
            self.pipelines.set(id.index, next);
            assert(self@ =~= before.update(
                id.index as int,
                CachedPipelineView {
                    state: before[id.index as int].state.after(outcome),
                    ..before[id.index as int]
                },
            ));
        }
    }
}

/// Asks for one pipeline for each of the entry points `entries`, in their
/// order, each compiled from `source`, and returns the ids of the pipelines
/// in that order.  Only the pipelines that the cache does not hold yet are
/// queued.
pub fn ensure_pipelines(
    cache: &mut PipelineCache,
    entries: &Vec<&'static str>,
    source: &PipelineSource,
) -> (ids: Vec<CachedComputePipelineId>)
    ensures
        (final(cache)@, ids@) == ensured_all(old(cache)@, source@, entry_names(entries@)),
{
    let ghost names = entry_names(entries@);
    let ghost before = cache@;
    let mut ids: Vec<CachedComputePipelineId> = Vec::new();
    let mut i: usize = 0;
    assert(names.take(0) =~= Seq::empty());
    while i < entries.len()
        invariant
            i <= entries@.len(),
            names == entry_names(entries@),
            (cache@, ids@) == ensured_all(before, source@, names.take(i as int)),
        decreases entries@.len() - i,
    {
        proof {
            assert(names[i as int] == entries@[i as int]@);
            assert(names.take(i + 1).drop_last() =~= names.take(i as int));
            assert(names.take(i + 1).last() == names[i as int]);
        }
        let id = cache.ensure_compute_pipeline(source.descriptor(entries[i]));
        ids.push(id);
        i += 1;
    }
    assert(names.take(i as int) =~= names);
    ids
}

} // verus!
