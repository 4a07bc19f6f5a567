//! The worker that runs a job at once: it records the dispatch, and puts the
//! job back in the queue while its bindings cannot be prepared.

use crate::channel::modified_notices;
use crate::error::{error_views, lemma_collect_all, Error, ErrorView};
use crate::events::{
    clone_passes, pass_views, AssetEvent, ComputeComplete, ComputeEvent, ComputeEventView,
    PassView, RequeueComputeEvent,
};
use crate::readback::{
    image_results, image_views, mapped_views, read_back, readback, Readback,
};
use crate::extract::{
    image_layouts, layout_images, pass_warnings, valid_passes, validate_passes, warning_views,
    ImageInfo, PassWarning,
};
use crate::node::{
    encode_copies, encode_passes, lemma_nothing_skipped, pipeline_awaited, recording,
    waits_for_pipeline, CommandSequence, CommandSequenceView, DispatchContext,
};
use crate::pipeline_cache::{
    ensure_pipelines, ensured_all, CachedComputePipelineId, CachedPipelineView, PipelineCache,
    PipelineSource, PipelineSourceView,
};
use crate::prepare::{image_buffers, prepare_bind_group, staging_plan, PreparedBindGroup};
use crate::resources::{
    BindingDescriptor, BufferDimensions, OwnedBindingResource, PreparedCompute,
    RenderComputePasses, StagingBuffer,
};
use crate::traits::{
    entry_names, shader_def_views, AssetId, ComputeTrait, PushConstantRange, ShaderDefVal,
};
use std::marker::PhantomData;
use vstd::prelude::*;

verus! {

/// How often a job of `T` is put back in the queue before it is given up.
#[verifier::reject_recursive_types(T)]
pub struct ComputeRetryLimit<T: ComputeTrait> {
    pub count: u32,
    pub _marker: PhantomData<T>,
}

impl<T: ComputeTrait> ComputeRetryLimit<T> {
    /// A limit of `count` retries.
    pub fn new(count: u32) -> (limit: Self)
        ensures
            limit.count == count,
    {
        Self { count, _marker: PhantomData }
    }
}

impl<T: ComputeTrait> Default for ComputeRetryLimit<T> {
    /// A limit of five retries.
    fn default() -> (limit: Self)
        ensures
            limit.count == 5,
    {
        Self { count: 5, _marker: PhantomData }
    }
}

/// The retry counter of a job after its bindings could not be prepared, or
/// `None` where the job is given up: a job that has been put back `limit`
/// times is not put back again.
pub open spec fn retry_after_failure(retry: nat, limit: nat) -> Option<nat> {
    if retry >= limit {
        None
    } else {
        Some(retry + 1)
    }
}

/// The retry counter of a job that was queued with the counter `retry` and
/// whose bindings could then not be prepared `failures` times in a row, or
/// `None` where it has been given up.
pub open spec fn retry_after_failures(retry: nat, limit: nat, failures: nat) -> Option<nat>
    decreases failures,
{
    if failures == 0 {
        Some(retry)
    } else {
        match retry_after_failures(retry, limit, (failures - 1) as nat) {
            None => None,
            Some(counter) => retry_after_failure(counter, limit),
        }
    }
}

/// A new job whose bindings cannot be prepared is put back once per failure,
/// with the counters 1, 2, and so on, until the counter has reached the
/// limit; the next failure ends it.
pub proof fn lemma_retry_counts(limit: nat, failures: nat)
    ensures
        retry_after_failures(0, limit, failures) == if failures <= limit {
            Some(failures)
        } else {
            None
        },
    decreases failures,
{
    if failures > 0 {
        lemma_retry_counts(limit, (failures - 1) as nat);
    }
}

/// The retry counter rises by one with each failure and never passes the
/// limit, whatever counter the job starts with.
pub proof fn lemma_retry_is_bounded(retry: nat, limit: nat, failures: nat)
    ensures
        match retry_after_failures(retry, limit, failures) {
            Some(counter) => counter == retry + failures && (failures > 0 ==> counter <= limit),
            None => retry + failures > limit,
        },
    decreases failures,
{
    if failures > 0 {
        lemma_retry_is_bounded(retry, limit, (failures - 1) as nat);
    }
}

/// Decides what becomes of the job `event` after its bindings could not be
/// prepared: it is queued again with the next retry counter, or, once the
/// counter has reached the limit, given up with `BindGroupPrepareFailed`.
pub fn on_prepare_failed<T: ComputeTrait>(event: &ComputeEvent<T>, limit: &ComputeRetryLimit<T>) -> (next:
    Result<RequeueComputeEvent<T>, Error>)
    ensures
        match retry_after_failure(event.retry as nat, limit.count as nat) {
            Some(counter) => {
                &&& next is Ok
                &&& next->Ok_0.retry == counter
                &&& pass_views(next->Ok_0.passes@) == event@.passes
            },
            None => next is Err && next->Err_0@ == ErrorView::BindGroupPrepareFailed,
        },
{
    if event.retry >= limit.count {
        Err(Error::BindGroupPrepareFailed)
    } else {
        Ok(
            RequeueComputeEvent {
                passes: clone_passes(&event.passes),
                retry: event.retry + 1,
                _marker: PhantomData,
            },
        )
    }
}

/// Turns a job that was put back into the job that is tried next: the same
/// passes, with the retry counter it was put back with.
pub fn requeue<T: ComputeTrait>(event: &RequeueComputeEvent<T>) -> (again: ComputeEvent<T>)
    ensures
        again@ == (ComputeEventView {
            passes: pass_views(event.passes@),
            dont_copy: false,
            retry: event.retry,
        }),
{
    ComputeEvent {
        passes: clone_passes(&event.passes),
        dont_copy: false,
        retry: event.retry,
        _marker: PhantomData,
    }
}

/// The pipelines of a data type: its entry points, and one pipeline per
/// entry point, in the order of the entry points; with the layout of its bind
/// group.
#[verifier::reject_recursive_types(T)]
pub struct ComputeWorker<T: ComputeTrait> {
    /// The entry points that the data type declared when the pipelines were
    /// queued.
    pub entries: Vec<&'static str>,
    /// The definitions that the data type gave for its shader then.
    pub shader_defs: Vec<ShaderDefVal>,
    /// The ranges of push constants that it gave.
    pub push_constant_ranges: Vec<PushConstantRange>,
    pub pipelines: Vec<CachedComputePipelineId>,
    pub bind_group: Option<u64>,
    pub bind_group_layout: u64,
    pub _marker: PhantomData<T>,
}

impl<T: ComputeTrait> ComputeWorker<T> {
    /// Asks `T` for its entry points, the definitions of its shader and its
    /// push constants, and makes sure that the cache holds a pipeline for
    /// each entry point.
    pub fn new(cache: &mut PipelineCache, shader: AssetId, bind_group_layout: u64) -> (worker: Self)
        ensures
            worker.entries@.len() > 0,
            (final(cache)@, worker.pipelines@) == ensured_all(
                old(cache)@,
                PipelineSourceView {
                    layout: bind_group_layout,
                    push_constant_ranges: worker.push_constant_ranges@,
                    shader,
                    shader_defs: shader_def_views(worker.shader_defs@),
                },
                entry_names(worker.entries@),
            ),
            worker.bind_group is None,
            worker.bind_group_layout == bind_group_layout,
    {
        let entries = T::entry_points();
        let source = PipelineSource {
            layout: bind_group_layout,
            push_constant_ranges: T::push_constant_ranges(),
            shader,
            shader_defs: T::shader_defs(),
        };
        let pipelines = ensure_pipelines(cache, &entries, &source);
        ComputeWorker {
            entries,
            shader_defs: source.shader_defs,
            push_constant_ranges: source.push_constant_ranges,
            pipelines,
            bind_group: None,
            bind_group_layout,
            _marker: PhantomData,
        }
    }
}

/// What the worker does with a job.
#[verifier::reject_recursive_types(T)]
pub enum WorkerStep<T: ComputeTrait> {
    /// The bindings could not be prepared: the job is queued again.
    Requeue(RequeueComputeEvent<T>),
    /// The job is given up.
    Abandon(Error),
    /// The commands are submitted, and the results read back through the
    /// staging buffers of `prepared`.
    Submit { passes: RenderComputePasses<T>, prepared: PreparedCompute<T>, commands: CommandSequence },
}

/// What a [`WorkerStep`] holds.
pub enum WorkerStepView {
    Requeue { passes: Seq<PassView>, retry: u32 },
    Abandon(ErrorView),
    Submit {
        passes: Seq<PassView>,
        images: Seq<(AssetId, BufferDimensions)>,
        bindings: Seq<(u32, OwnedBindingResource)>,
        bind_group: u64,
        staging: Seq<(u32, StagingBuffer)>,
        image_staging: Seq<StagingBuffer>,
        commands: CommandSequenceView,
    },
}

impl<T: ComputeTrait> View for WorkerStep<T> {
    type V = WorkerStepView;

    open spec fn view(&self) -> WorkerStepView {
        match *self {
            WorkerStep::Requeue(event) => WorkerStepView::Requeue {
                passes: pass_views(event.passes@),
                retry: event.retry,
            },
            WorkerStep::Abandon(e) => WorkerStepView::Abandon(e@),
            WorkerStep::Submit { passes, prepared, commands } => WorkerStepView::Submit {
                passes: pass_views(passes.passes@),
                images: passes.images@,
                bindings: prepared.bindings@,
                bind_group: prepared.bind_group,
                staging: prepared.staging_buffers.storage@,
                image_staging: prepared.staging_image_buffers@,
                commands: commands@,
            },
        }
    }
}

/// What the worker does with a job whose bindings could not be prepared: it
/// queues the job again with the next retry counter, or gives it up once the
/// counter has reached the limit.
pub open spec fn step_without_bindings(event: ComputeEventView, limit: u32) -> WorkerStepView {
    match retry_after_failure(event.retry as nat, limit as nat) {
        Some(counter) => WorkerStepView::Requeue { passes: event.passes, retry: counter as u32 },
        None => WorkerStepView::Abandon(ErrorView::BindGroupPrepareFailed),
    }
}

/// What the worker does with a job whose bindings are `bindings`, in the
/// bind group `bind_group`.  Only a job whose valid passes all have their
/// pipeline is submitted.  While the pipeline of one of them is still to be
/// compiled, the job is given up with `PipelineNotReady`: the application
/// asks again later.  Where none is waited for and the pipeline of one is
/// missing, the job is given up with `MissingPipeline` for the first such
/// pass.  Otherwise the worker submits the passes and the copies into the
/// staging buffers, or gives the job up where a staging buffer cannot be
/// filled.
pub open spec fn step_with_bindings(
    event: ComputeEventView,
    bindings: Seq<(u32, OwnedBindingResource)>,
    bind_group: u64,
    descriptor: Seq<BindingDescriptor>,
    images: Seq<ImageInfo>,
    entries: Seq<Seq<char>>,
    pipelines: Seq<CachedComputePipelineId>,
    cache: Seq<CachedPipelineView>,
) -> WorkerStepView {
    let passes = valid_passes(event.passes, entries);
    let layouts = image_layouts(images);
    let context = DispatchContext { entries, pipelines, cache, bind_group };
    if waits_for_pipeline(entries, pipelines, cache, passes) {
        WorkerStepView::Abandon(ErrorView::PipelineNotReady)
    } else if context.skipped(passes).len() > 0 {
        WorkerStepView::Abandon(context.skipped(passes)[0])
    } else {
        step_with_pipelines(
            passes,
            bindings,
            bind_group,
            descriptor,
            layouts,
            entries,
            pipelines,
            cache,
        )
    }
}

/// What the worker does with the valid passes `passes` of a job once each
/// has its pipeline.
pub open spec fn step_with_pipelines(
    passes: Seq<PassView>,
    bindings: Seq<(u32, OwnedBindingResource)>,
    bind_group: u64,
    descriptor: Seq<BindingDescriptor>,
    layouts: Seq<(AssetId, BufferDimensions)>,
    entries: Seq<Seq<char>>,
    pipelines: Seq<CachedComputePipelineId>,
    cache: Seq<CachedPipelineView>,
) -> WorkerStepView {
    match staging_plan(descriptor, bindings) {
        Err(e) => WorkerStepView::Abandon(e),
        Ok(staging) => match recording(
            DispatchContext { entries, pipelines, cache, bind_group },
            passes,
            staging,
            bindings,
            layouts,
            layouts.len(),
        ) {
            Err(e) => WorkerStepView::Abandon(e),
            Ok(commands) => WorkerStepView::Submit {
                passes,
                images: layouts,
                bindings,
                bind_group,
                staging,
                image_staging: image_buffers(layouts),
                commands,
            },
        },
    }
}

/// A job is submitted whole or not at all: where the worker submits, every
/// valid pass of the job has its pipeline and is recorded, and no pass is left
/// out.
pub proof fn lemma_submitted_job_is_whole(
    event: ComputeEventView,
    bindings: Seq<(u32, OwnedBindingResource)>,
    bind_group: u64,
    descriptor: Seq<BindingDescriptor>,
    images: Seq<ImageInfo>,
    entries: Seq<Seq<char>>,
    pipelines: Seq<CachedComputePipelineId>,
    cache: Seq<CachedPipelineView>,
)
    requires
        step_with_bindings(
            event,
            bindings,
            bind_group,
            descriptor,
            images,
            entries,
            pipelines,
            cache,
        ) is Submit,
    ensures
        ({
            let step = step_with_bindings(
                event,
                bindings,
                bind_group,
                descriptor,
                images,
                entries,
                pipelines,
                cache,
            );
            let context = DispatchContext { entries, pipelines, cache, bind_group };
            let passes = valid_passes(event.passes, entries);
            &&& step->Submit_passes == passes
            &&& step->Submit_commands.skipped.len() == 0
            &&& context.commands(passes).is_prefix_of(step->Submit_commands.commands)
            &&& forall|i: int|
                0 <= i < passes.len() ==> context.pipeline_for(#[trigger] passes[i]) is Ok
        }),
{
    let context = DispatchContext { entries, pipelines, cache, bind_group };
    let passes = valid_passes(event.passes, entries);
    lemma_nothing_skipped(context, passes);
}

/// Runs the job `event` as far as its submission.  `prepared` is what the
/// device made of the data object's bindings, or `None` where a resource that
/// they depend on was not available yet.
///
/// Without bindings the job is queued again, or given up once its retry
/// counter has reached `retry_limit`.  With them, the job is given up with
/// `PipelineNotReady` while the pipeline of a valid pass is still to be
/// compiled, and with `MissingPipeline` where one has none.  Otherwise the
/// valid passes of the job are recorded, followed by the copies into the
/// staging buffers, which are allocated for the slots of `descriptor` that
/// are read back and for `images`.  The job is given up where a staging
/// buffer cannot be filled.  Each refused pass is reported with a warning.
/// Nothing is submitted for a job that is queued again or given up.
pub fn run<T: ComputeTrait>(
    event: &ComputeEvent<T>,
    prepared: Option<PreparedBindGroup>,
    descriptor: &Vec<BindingDescriptor>,
    images: &Vec<ImageInfo>,
    worker: &ComputeWorker<T>,
    cache: &PipelineCache,
    retry_limit: &ComputeRetryLimit<T>,
) -> (done: (WorkerStep<T>, Vec<PassWarning>))
    requires
        prepared is Some ==> forall|i: int|
            0 <= i < images@.len() ==> (#[trigger] images@[i]).fits(),
    ensures
        warning_views(done.1@) == pass_warnings(event@.passes, entry_names(worker.entries@)),
        done.0@ == match prepared {
            None => step_without_bindings(event@, retry_limit.count),
            Some(group) => step_with_bindings(
                event@,
                group.bindings@,
                group.bind_group,
                descriptor@,
                images@,
                entry_names(worker.entries@),
                worker.pipelines@,
                cache@,
            ),
        },
{
    let (valid, warnings) = validate_passes(&event.passes, &worker.entries);
    let group = match prepared {
        None => {
            return match on_prepare_failed(event, retry_limit) {
                Ok(again) => (WorkerStep::Requeue(again), warnings),
                Err(e) => (WorkerStep::Abandon(e), warnings),
            };
        },
        Some(group) => group,
    };
    if pipeline_awaited(&valid, &worker.entries, &worker.pipelines, cache) {
        return (WorkerStep::Abandon(Error::PipelineNotReady), warnings);
    }
    let mut commands = encode_passes(
        &valid,
        group.bind_group,
        &worker.entries,
        &worker.pipelines,
        cache,
    );
    if commands.skipped.len() > 0 {
        assert(error_views(commands.skipped@)[0] == commands.skipped@[0]@);
        let missing = commands.skipped.remove(0);
        return (WorkerStep::Abandon(missing), warnings);
    }
    let passes = RenderComputePasses::<T> {
        passes: valid,
        images: layout_images(images),
        _marker: PhantomData,
    };
    let compute = match prepare_bind_group(Some(group), descriptor, &passes) {
        Err(e) => {
            return (WorkerStep::Abandon(e), warnings);
        },
        Ok(compute) => compute,
    };
    match encode_copies(
        &mut commands.commands,
        &compute.staging_buffers.storage,
        &compute.bindings,
        &passes.images,
        compute.staging_image_buffers.len(),
    ) {
        Err(e) => (WorkerStep::Abandon(e), warnings),
        Ok(()) => (WorkerStep::Submit { passes, prepared: compute, commands }, warnings),
    }
}

/// What the worker writes back once a dispatch has run.
#[verifier::reject_recursive_types(T)]
pub struct Completed<T: ComputeTrait> {
    /// The bytes of each binding slot and of each image that was read back.
    pub results: Readback,
    /// For each image that was read back, in order, the notice that it was
    /// modified.
    pub asset_events: Vec<AssetEvent>,
    /// The notice that the dispatch has completed.
    pub complete: ComputeComplete<T>,
}

/// The notice that each of `images` was modified.
pub open spec fn image_notices(images: Seq<(AssetId, BufferDimensions)>) -> Seq<AssetEvent> {
    images.map_values(|image: (AssetId, BufferDimensions)| AssetEvent::Modified { id: image.0 })
}

/// Ends the job whose dispatch was submitted with `passes` and `prepared`:
/// reads the results out of the mapped staging buffers, as
/// [`crate::readback::read_back`] does, and makes the notice for each image
/// and the notice of completion.  It is all or nothing: where a staging
/// buffer cannot be read, there are no results, no notice, and no
/// completion.
pub fn finish<T: ComputeTrait>(
    passes: &RenderComputePasses<T>,
    prepared: &PreparedCompute<T>,
    mapped_storage: &Vec<Option<Vec<u8>>>,
    mapped_images: &Vec<Option<Vec<u8>>>,
) -> (done: Result<Completed<T>, Error>)
    ensures
        match readback(
            prepared.staging_buffers.storage@,
            passes.images@,
            mapped_views(mapped_storage@),
            mapped_views(mapped_images@),
        ) {
            Ok(results) => {
                &&& done is Ok
                &&& done->Ok_0.results@ == results
                &&& done->Ok_0.asset_events@ == image_notices(passes.images@)
                &&& !done->Ok_0.complete.dont_copy
            },
            Err(e) => done is Err && done->Err_0@ == e,
        },
{
    match read_back(&prepared.staging_buffers.storage, &passes.images, mapped_storage, mapped_images) {
        Err(e) => Err(e),
        Ok(results) => {
            let asset_events = modified_notices(&results.images);
            proof {
                let read = image_results(passes.images@, mapped_views(mapped_images@));
                lemma_collect_all(read);
                assert(asset_events@ =~= image_notices(passes.images@)) by {
                    assert forall|i: int| 0 <= i < passes.images@.len() implies asset_events@[i]
                        == image_notices(passes.images@)[i] by {
                        assert(read[i] == Ok::<_, ErrorView>(image_views(results.images@)[i]));
                    }
                }
            }
            Ok(Completed { results, asset_events, complete: ComputeComplete::default() })
        },
    }
}

} // verus!
