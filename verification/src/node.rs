//! The commands of one dispatch, and the node of the render graph that
//! records them.
//!
//! The passes run in the order in which they are listed.  Each binds its
//! pipeline once and dispatches once per workgroup size.  After the passes,
//! every buffer and image that is read back is copied into its staging
//! buffer.

use crate::error::{error_views, Error, ErrorView, StagingTarget};
use crate::events::{pass_views, Pass, PassView, Workgroups};
use crate::pipeline_cache::{
    state_of, CachedComputePipelineId, CachedPipelineState, CachedPipelineView, PipelineCache,
};
use crate::resources::{
    buffer_of, find_buffer, BufferDimensions, ComputePipeline, OwnedBindingResource,
    PreparedCompute, RenderComputePasses, StagingBuffer,
};
use crate::traits::{entry_index, entry_names, find_entry, AssetId, ComputeTrait};
use std::marker::PhantomData;
use vstd::prelude::*;
use vstd::string::StringExecFns;

verus! {

/// One command for the device.
#[derive(Copy, Clone, Debug, PartialEq, Eq, Structural)]
pub enum Command {
    /// Begins a compute pass and binds the pipeline `pipeline`, which runs
    /// the entry point at position `entry`, and the bind group `bind_group`.
    BeginComputePass { entry: usize, pipeline: u64, bind_group: u64 },
    /// Dispatches `x` by `y` by `z` workgroups under the bound pipeline.
    DispatchWorkgroups { x: u32, y: u32, z: u32 },
    /// Ends the compute pass.
    EndComputePass,
    /// Copies the first `size` bytes of the buffer `source` to the start of
    /// the staging buffer at position `destination` among those of the slots.
    CopyBufferToBuffer { source: u64, destination: usize, size: u64 },
    /// Copies the image `image`, `width` by `height` pixels, into the staging
    /// buffer at position `destination` among those of the images, each row
    /// at a multiple of `bytes_per_row`.
    CopyTextureToBuffer {
        image: AssetId,
        destination: usize,
        bytes_per_row: usize,
        width: usize,
        height: usize,
    },
}

/// The commands of one dispatch, and the passes that were left out.
#[derive(Debug, PartialEq, Eq)]
pub struct CommandSequence {
    pub commands: Vec<Command>,
    /// For each pass that was left out, in order, the reason.
    pub skipped: Vec<Error>,
}

/// What the passes of a dispatch are bound with.
pub struct DispatchContext {
    /// The entry points that the data type declares.
    pub entries: Seq<Seq<char>>,
    /// The pipeline of each declared entry point.
    pub pipelines: Seq<CachedComputePipelineId>,
    /// The cache that holds the pipelines.
    pub cache: Seq<CachedPipelineView>,
    pub bind_group: u64,
}

impl DispatchContext {
    /// The position of the entry point of `pass` and its pipeline on the
    /// device; or why `pass` cannot run.  The pipeline is missing where the
    /// data type declares no such entry point, where no pipeline was queued
    /// for it, and where the pipeline has been given up.  It is not ready
    /// while it is still to be compiled.
    pub open spec fn pipeline_for(self, pass: PassView) -> Result<(int, u64), ErrorView> {
        match entry_index(self.entries, pass.entry) {
            None => Err(ErrorView::MissingPipeline(pass.entry)),
            Some(i) => if i >= self.pipelines.len() {
                Err(ErrorView::MissingPipeline(pass.entry))
            } else {
                match state_of(self.cache, self.pipelines[i]) {
                    CachedPipelineState::Ready(pipeline) => Ok((i, pipeline)),
                    state => if state.is_pending() {
                        Err(ErrorView::PipelineNotReady)
                    } else {
                        Err(ErrorView::MissingPipeline(pass.entry))
                    },
                }
            },
        }
    }

    /// The commands of `pass`: none where it cannot run.
    pub open spec fn pass_commands(self, pass: PassView) -> Seq<Command> {
        match self.pipeline_for(pass) {
            Ok((entry, pipeline)) => seq![
                Command::BeginComputePass {
                    entry: entry as usize,
                    pipeline,
                    bind_group: self.bind_group,
                },
            ] + dispatches(pass.workgroups) + seq![Command::EndComputePass],
            Err(_) => Seq::empty(),
        }
    }

    /// The commands of `passes`, pass after pass.
    pub open spec fn commands(self, passes: Seq<PassView>) -> Seq<Command>
        decreases passes.len(),
    {
        if passes.len() == 0 {
            Seq::empty()
        } else {
            self.commands(passes.drop_last()) + self.pass_commands(passes.last())
        }
    }

    /// For each of `passes` that cannot run, in order, the reason.
    pub open spec fn skipped(self, passes: Seq<PassView>) -> Seq<ErrorView>
        decreases passes.len(),
    {
        if passes.len() == 0 {
            Seq::empty()
        } else {
            match self.pipeline_for(passes.last()) {
                Ok(_) => self.skipped(passes.drop_last()),
                Err(e) => self.skipped(passes.drop_last()).push(e),
            }
        }
    }
}

/// The pipeline of some pass of `passes` is still to be compiled.
pub open spec fn waits_for_pipeline(
    entries: Seq<Seq<char>>,
    pipelines: Seq<CachedComputePipelineId>,
    cache: Seq<CachedPipelineView>,
    passes: Seq<PassView>,
) -> bool {
    exists|i: int|
        0 <= i < passes.len() && pass_waits(entries, pipelines, cache, #[trigger] passes[i])
}

/// The pipeline of `pass` is still to be compiled.
pub open spec fn pass_waits(
    entries: Seq<Seq<char>>,
    pipelines: Seq<CachedComputePipelineId>,
    cache: Seq<CachedPipelineView>,
    pass: PassView,
) -> bool {
    (DispatchContext { entries, pipelines, cache, bind_group: 0 }).pipeline_for(pass) == Err::<
        (int, u64),
        ErrorView,
    >(ErrorView::PipelineNotReady)
}

/// One dispatch for each of `workgroups`, in order.
pub open spec fn dispatches(workgroups: Seq<Workgroups>) -> Seq<Command> {
    workgroups.map_values(|w: Workgroups| Command::DispatchWorkgroups { x: w.x, y: w.y, z: w.z })
}

/// The copy of each staged slot into its staging buffer, in the order of
/// `staging`; or, where the slot of a staging buffer is not backed by a
/// buffer on the device, the first such staging buffer.
pub open spec fn buffer_copies(
    staging: Seq<(u32, StagingBuffer)>,
    bindings: Seq<(u32, OwnedBindingResource)>,
) -> Result<Seq<Command>, ErrorView>
    decreases staging.len(),
{
    if staging.len() == 0 {
        Ok(Seq::empty())
    } else {
        match buffer_copies(staging.drop_last(), bindings) {
            Err(e) => Err(e),
            Ok(copies) => match buffer_of(bindings, staging.last().0) {
                None => Err(ErrorView::StagingBufferMissing(StagingTarget::Slot(staging.last().0))),
                Some((source, size)) => Ok(
                    copies.push(
                        Command::CopyBufferToBuffer {
                            source,
                            destination: (staging.len() - 1) as usize,
                            size,
                        },
                    ),
                ),
            },
        }
    }
}

/// The copy of the image at position `i` of `images` into its staging
/// buffer.
pub open spec fn image_copy(images: Seq<(AssetId, BufferDimensions)>, i: int) -> Command {
    Command::CopyTextureToBuffer {
        image: images[i].0,
        destination: i as usize,
        bytes_per_row: images[i].1.padded_bytes_per_row,
        width: images[i].1.width,
        height: images[i].1.height,
    }
}

/// The copy of each image into its staging buffer, in the order of `images`;
/// or, where there are fewer than `buffers` staging buffers, the first image
/// that has none.
pub open spec fn image_copies(images: Seq<(AssetId, BufferDimensions)>, buffers: nat) -> Result<
    Seq<Command>,
    ErrorView,
> {
    if buffers < images.len() {
        Err(ErrorView::StagingBufferMissing(StagingTarget::Image(buffers as usize)))
    } else {
        Ok(Seq::new(images.len(), |i: int| image_copy(images, i)))
    }
}

/// The commands that copy the results of a dispatch into the staging
/// buffers: first the slots, then the images.
pub open spec fn copy_commands(
    staging: Seq<(u32, StagingBuffer)>,
    bindings: Seq<(u32, OwnedBindingResource)>,
    images: Seq<(AssetId, BufferDimensions)>,
    image_buffers: nat,
) -> Result<Seq<Command>, ErrorView> {
    match buffer_copies(staging, bindings) {
        Err(e) => Err(e),
        Ok(slots) => match image_copies(images, image_buffers) {
            Err(e) => Err(e),
            Ok(textures) => Ok(slots + textures),
        },
    }
}

/// The passes run in the order in which they are listed, and none depends on
/// another: the commands of a list of passes are those of its front followed
/// by those of its back, and likewise the passes that are left out.
pub proof fn lemma_commands_concat(context: DispatchContext, front: Seq<PassView>, back: Seq<PassView>)
    ensures
        context.commands(front + back) == context.commands(front) + context.commands(back),
        context.skipped(front + back) == context.skipped(front) + context.skipped(back),
    decreases back.len(),
{
    if back.len() == 0 {
        assert(front + back =~= front);
        assert(context.commands(front) + context.commands(back) =~= context.commands(front));
        assert(context.skipped(front) + context.skipped(back) =~= context.skipped(front));
    } else {
        lemma_commands_concat(context, front, back.drop_last());
        assert((front + back).drop_last() =~= front + back.drop_last());
        assert((front + back).last() == back.last());
        assert(context.commands(front + back) =~= context.commands(front) + context.commands(back));
        assert(context.skipped(front + back) =~= context.skipped(front) + context.skipped(back));
    }
}

/// Once no pipeline is waited for, a pass is left out only because its
/// pipeline is missing.
pub proof fn lemma_skipped_is_missing(context: DispatchContext, passes: Seq<PassView>)
    requires
        !waits_for_pipeline(context.entries, context.pipelines, context.cache, passes),
    ensures
        forall|k: int|
            0 <= k < context.skipped(passes).len() ==> (#[trigger] context.skipped(passes)[k])
                is MissingPipeline,
    decreases passes.len(),
{
    if passes.len() > 0 {
        let earlier = passes.drop_last();
        assert forall|i: int| 0 <= i < earlier.len() implies !pass_waits(
            context.entries,
            context.pipelines,
            context.cache,
            #[trigger] earlier[i],
        ) by {
            assert(earlier[i] == passes[i]);
        }
        lemma_skipped_is_missing(context, earlier);
        assert(!pass_waits(
            context.entries,
            context.pipelines,
            context.cache,
            passes[passes.len() - 1],
        ));
    }
}

/// Where no pass is left out, every pass has its pipeline.
pub proof fn lemma_nothing_skipped(context: DispatchContext, passes: Seq<PassView>)
    requires
        context.skipped(passes).len() == 0,
    ensures
        forall|i: int| 0 <= i < passes.len() ==> context.pipeline_for(#[trigger] passes[i]) is Ok,
    decreases passes.len(),
{
    if passes.len() > 0 {
        let earlier = passes.drop_last();
        lemma_nothing_skipped(context, earlier);
        assert forall|i: int| 0 <= i < passes.len() implies context.pipeline_for(
            #[trigger] passes[i],
        ) is Ok by {
            if i < passes.len() - 1 {
                assert(earlier[i] == passes[i]);
            }
        }
    }
}

/// A pass that cannot run leaves no command behind, and the commands of the
/// passes around it are recorded as if it had not been asked for.
pub proof fn lemma_skipped_pass_leaves_no_command(
    context: DispatchContext,
    passes: Seq<PassView>,
    i: int,
)
    requires
        0 <= i < passes.len(),
        context.pipeline_for(passes[i]) is Err,
    ensures
        context.commands(passes) == context.commands(passes.remove(i)),
        context.skipped(passes) == context.skipped(passes.take(i)).push(
            context.pipeline_for(passes[i])->Err_0,
        ) + context.skipped(passes.skip(i + 1)),
{
    let front = passes.take(i);
    let one = seq![passes[i]];
    let back = passes.skip(i + 1);
    assert(passes =~= front + one + back);
    assert(passes.remove(i) =~= front + back);
    lemma_commands_concat(context, front + one, back);
    lemma_commands_concat(context, front, one);
    lemma_commands_concat(context, front, back);
    assert(one.drop_last() =~= Seq::<PassView>::empty());
    assert(context.commands(one) =~= Seq::<Command>::empty()) by {
        assert(context.commands(one.drop_last()) =~= Seq::<Command>::empty());
    }
    assert(context.skipped(one) =~= seq![context.pipeline_for(passes[i])->Err_0]) by {
        assert(context.skipped(one.drop_last()) =~= Seq::<ErrorView>::empty());
    }
    assert(context.commands(passes) =~= context.commands(passes.remove(i)));
    assert(context.skipped(passes) =~= context.skipped(front).push(
        context.pipeline_for(passes[i])->Err_0,
    ) + context.skipped(back));
}

/// Once a staging buffer has no backing buffer, no longer list of staging
/// buffers can be copied.
proof fn lemma_buffer_copies_fail(
    staging: Seq<(u32, StagingBuffer)>,
    bindings: Seq<(u32, OwnedBindingResource)>,
    n: int,
)
    requires
        0 <= n <= staging.len(),
        buffer_copies(staging.take(n), bindings) is Err,
    ensures
        buffer_copies(staging, bindings) == buffer_copies(staging.take(n), bindings),
    decreases staging.len() - n,
{
    if n < staging.len() {
        assert(staging.take(n + 1).drop_last() =~= staging.take(n));
        lemma_buffer_copies_fail(staging, bindings, n + 1);
    } else {
        assert(staging.take(n) =~= staging);
    }
}

/// Whether the pipeline of some pass of `passes` is still to be compiled.
/// `pipelines` holds the pipeline of each of the entry points `entries`.
pub fn pipeline_awaited(
    passes: &Vec<Pass>,
    entries: &Vec<&'static str>,
    pipelines: &Vec<CachedComputePipelineId>,
    cache: &PipelineCache,
) -> (awaited: bool)
    ensures
        awaited == waits_for_pipeline(
            entry_names(entries@),
            pipelines@,
            cache@,
            pass_views(passes@),
        ),
{
    let ghost all = pass_views(passes@);
    let mut i: usize = 0;
    while i < passes.len()
        invariant
            i <= passes@.len(),
            all == pass_views(passes@),
            forall|j: int|
                0 <= j < i ==> !pass_waits(
                    entry_names(entries@),
                    pipelines@,
                    cache@,
                    #[trigger] all[j],
                ),
        decreases passes@.len() - i,
    {
        let pass = &passes[i];
        assert(all[i as int] == pass@);
        let waits = match find_entry(entries, pass.entry) {
            Some(position) if position < pipelines.len() => cache.get_compute_pipeline_state(
                pipelines[position],
            ).pending(),
            _ => false,
        };
        if waits {
            return true;
        }
        i += 1;
    }
    false
}

/// Records the passes `passes`, bound with the bind group `bind_group` and
/// the pipelines `pipelines`, one for each of the entry points `entries`.  A
/// pass whose pipeline is missing or not compiled is left out and reported;
/// the other passes are recorded all the same.
pub fn encode_passes(
    passes: &Vec<Pass>,
    bind_group: u64,
    entries: &Vec<&'static str>,
    pipelines: &Vec<CachedComputePipelineId>,
    cache: &PipelineCache,
) -> (recorded: CommandSequence)
    ensures
        ({
            let context = DispatchContext {
                entries: entry_names(entries@),
                pipelines: pipelines@,
                cache: cache@,
                bind_group,
            };
            &&& recorded.commands@ == context.commands(pass_views(passes@))
            &&& error_views(recorded.skipped@) == context.skipped(pass_views(passes@))
        }),
{
    let ghost context = DispatchContext {
        entries: entry_names(entries@),
        pipelines: pipelines@,
        cache: cache@,
        bind_group,
    };
    let ghost all = pass_views(passes@);
    let mut commands: Vec<Command> = Vec::new();
    let mut skipped: Vec<Error> = Vec::new();
    let mut i: usize = 0;
    assert(all.take(0) =~= Seq::empty());
    assert(error_views(skipped@) =~= Seq::empty());
    while i < passes.len()
        invariant
            i <= passes@.len(),
            all == pass_views(passes@),
            context.entries == entry_names(entries@),
            context.pipelines == pipelines@,
            context.cache == cache@,
            context.bind_group == bind_group,
            commands@ == context.commands(all.take(i as int)),
            error_views(skipped@) == context.skipped(all.take(i as int)),
        decreases passes@.len() - i,
    {
        let pass = &passes[i];
        proof {
            assert(all.take(i + 1).drop_last() =~= all.take(i as int));
            assert(all.take(i + 1).last() == pass@);
        }
        let ghost skipped_before = skipped@;
        let bound = match find_entry(entries, pass.entry) {
            Some(position) if position < pipelines.len() => match cache.get_compute_pipeline_state(
                pipelines[position],
            ) {
                CachedPipelineState::Ready(compiled) => Ok((position, compiled)),
                state => if state.pending() {
                    Err(Error::PipelineNotReady)
                } else {
                    Err(Error::MissingPipeline(String::from_str(pass.entry)))
                },
            },
            _ => Err(Error::MissingPipeline(String::from_str(pass.entry))),
        };
        match bound {
            Err(error) => {
                skipped.push(error);
                assert(error_views(skipped@) =~= error_views(skipped_before).push(error@));
            },
            Ok((position, compiled)) => {
                let ghost before = commands@;
                commands.push(
                    Command::BeginComputePass { entry: position, pipeline: compiled, bind_group },
                );
                let mut k: usize = 0;
                while k < pass.workgroups.len()
                    invariant
                        k <= pass.workgroups@.len(),
                        commands@ == before + seq![
                            Command::BeginComputePass {
                                entry: position,
                                pipeline: compiled,
                                bind_group,
                            },
                        ] + dispatches(pass.workgroups@).take(k as int),
                    decreases pass.workgroups@.len() - k,
                {
                    let w = pass.workgroups[k];
                    commands.push(Command::DispatchWorkgroups { x: w.x, y: w.y, z: w.z });
                    assert(dispatches(pass.workgroups@).take(k + 1) =~= dispatches(
                        pass.workgroups@,
                    ).take(k as int).push(Command::DispatchWorkgroups { x: w.x, y: w.y, z: w.z }));
                    k += 1;
                }
                commands.push(Command::EndComputePass);
                assert(dispatches(pass.workgroups@).take(k as int) =~= dispatches(pass.workgroups@));
                assert(commands@ =~= before + context.pass_commands(pass@));
            },
        }
        i += 1;
    }
    assert(all.take(i as int) =~= all);
    CommandSequence { commands, skipped }
}

/// Appends to `commands` the copy of each staged slot and each image into
/// its staging buffer.  Nothing is appended where a staging buffer cannot be
/// filled: where its slot is not backed by a buffer on the device, or where
/// an image has no staging buffer.
pub fn encode_copies(
    commands: &mut Vec<Command>,
    staging: &Vec<(u32, StagingBuffer)>,
    bindings: &Vec<(u32, OwnedBindingResource)>,
    images: &Vec<(AssetId, BufferDimensions)>,
    image_buffers: usize,
) -> (done: Result<(), Error>)
    ensures
        match copy_commands(staging@, bindings@, images@, image_buffers as nat) {
            Ok(copies) => done is Ok && final(commands)@ == old(commands)@ + copies,
            Err(e) => done is Err && done->Err_0@ == e && final(commands)@ == old(commands)@,
        },
{
    let mut copies: Vec<Command> = Vec::new();
    let mut i: usize = 0;
    assert(staging@.take(0) =~= Seq::empty());
    while i < staging.len()
        invariant
            i <= staging@.len(),
            buffer_copies(staging@.take(i as int), bindings@) == Ok::<_, ErrorView>(copies@),
        decreases staging@.len() - i,
    {
        let (slot, _) = staging[i];
        proof {
            assert(staging@.take(i + 1).drop_last() =~= staging@.take(i as int));
            assert(staging@.take(i + 1).last() == staging@[i as int]);
        }
        match find_buffer(bindings, slot) {
            None => {
                proof {
                    lemma_buffer_copies_fail(staging@, bindings@, i + 1);
                }
                return Err(Error::StagingBufferMissing(StagingTarget::Slot(slot)));
            },
            Some((source, size)) => {
                copies.push(Command::CopyBufferToBuffer { source, destination: i, size });
            },
        }
        i += 1;
    }
    assert(staging@.take(i as int) =~= staging@);
    if image_buffers < images.len() {
        return Err(Error::StagingBufferMissing(StagingTarget::Image(image_buffers)));
    }
    let ghost slots = copies@;
    let mut k: usize = 0;
    while k < images.len()
        invariant
            k <= images@.len(),
            copies@ == slots + Seq::new(k as nat, |i: int| image_copy(images@, i)),
        decreases images@.len() - k,
    {
        let (image, dim) = images[k];
        copies.push(
            Command::CopyTextureToBuffer {
                image,
                destination: k,
                bytes_per_row: dim.padded_bytes_per_row,
                width: dim.width,
                height: dim.height,
            },
        );
        assert(copies@ =~= slots + Seq::new((k + 1) as nat, |i: int| image_copy(images@, i)));
        k += 1;
    }
    commands.append(&mut copies);
    Ok(())
}

/// What a [`CommandSequence`] holds.
pub struct CommandSequenceView {
    pub commands: Seq<Command>,
    pub skipped: Seq<ErrorView>,
}

impl View for CommandSequence {
    type V = CommandSequenceView;

    open spec fn view(&self) -> CommandSequenceView {
        CommandSequenceView { commands: self.commands@, skipped: error_views(self.skipped@) }
    }
}

/// What `recorded` holds, on either side.
pub open spec fn recorded_view(recorded: Result<CommandSequence, Error>) -> Result<
    CommandSequenceView,
    ErrorView,
> {
    match recorded {
        Ok(sequence) => Ok(sequence@),
        Err(e) => Err(e@),
    }
}

/// The recording of one dispatch: the commands of `passes` followed by the
/// copies into the staging buffers, and the passes that were left out; or
/// the staging buffer that cannot be filled.
pub open spec fn recording(
    context: DispatchContext,
    passes: Seq<PassView>,
    staging: Seq<(u32, StagingBuffer)>,
    bindings: Seq<(u32, OwnedBindingResource)>,
    images: Seq<(AssetId, BufferDimensions)>,
    image_buffers: nat,
) -> Result<CommandSequenceView, ErrorView> {
    match copy_commands(staging, bindings, images, image_buffers) {
        Ok(copies) => Ok(
            CommandSequenceView {
                commands: context.commands(passes) + copies,
                skipped: context.skipped(passes),
            },
        ),
        Err(e) => Err(e),
    }
}

/// The recording of the dispatch of `passes` with what `prepared` holds,
/// under the pipelines `pipelines` of the entry points `entries`.
pub open spec fn recording_of<T: ComputeTrait>(
    passes: &RenderComputePasses<T>,
    prepared: &PreparedCompute<T>,
    entries: Seq<Seq<char>>,
    pipelines: Seq<CachedComputePipelineId>,
    cache: Seq<CachedPipelineView>,
) -> Result<CommandSequenceView, ErrorView> {
    recording(
        DispatchContext { entries, pipelines, cache, bind_group: prepared.bind_group },
        pass_views(passes.passes@),
        prepared.staging_buffers.storage@,
        prepared.bindings@,
        passes.images@,
        prepared.staging_image_buffers@.len(),
    )
}

/// Records one dispatch: the passes `passes`, then the copies into the
/// staging buffers of `prepared`.  `pipelines` holds the pipeline of each of
/// the entry points `entries`.  The dispatch is given up, with
/// `StagingBufferMissing`, where a staging buffer cannot be filled.
pub fn encode<T: ComputeTrait>(
    passes: &RenderComputePasses<T>,
    prepared: &PreparedCompute<T>,
    entries: &Vec<&'static str>,
    pipelines: &Vec<CachedComputePipelineId>,
    cache: &PipelineCache,
) -> (recorded: Result<CommandSequence, Error>)
    ensures
        recorded_view(recorded) == recording_of(
            passes,
            prepared,
            entry_names(entries@),
            pipelines@,
            cache@,
        ),
{
    let mut recorded = encode_passes(
        &passes.passes,
        prepared.bind_group,
        entries,
        pipelines,
        cache,
    );
    match encode_copies(
        &mut recorded.commands,
        &prepared.staging_buffers.storage,
        &prepared.bindings,
        &passes.images,
        prepared.staging_image_buffers.len(),
    ) {
        Ok(()) => Ok(recorded),
        Err(e) => Err(e),
    }
}

/// Whether the pipelines of a node have been compiled.
#[derive(Copy, Clone, Debug, PartialEq, Eq, Structural)]
pub enum ComputeState {
    Loading,
    Ready,
}

/// Every one of `pipelines` is compiled.
pub open spec fn all_compiled(
    pipelines: Seq<CachedComputePipelineId>,
    cache: Seq<CachedPipelineView>,
) -> bool {
    forall|i: int|
        0 <= i < pipelines.len() ==> state_of(cache, #[trigger] pipelines[i]) is Ready
}

/// The node of the render graph that records the dispatches of `T`.  It
/// records nothing until every pipeline of `T` is compiled.
#[verifier::reject_recursive_types(T)]
pub struct ComputeNode<T: ComputeTrait> {
    state: ComputeState,
    _marker: PhantomData<T>,
}

impl<T: ComputeTrait> Default for ComputeNode<T> {
    fn default() -> (node: Self)
        ensures
            node.state() is Loading,
    {
        ComputeNode { state: ComputeState::Loading, _marker: PhantomData }
    }
}

impl<T: ComputeTrait> ComputeNode<T> {
    /// Whether the pipelines have been compiled.
    pub closed spec fn state(&self) -> ComputeState {
        self.state
    }

    /// Whether the node records dispatches.
    pub fn is_ready(&self) -> (ready: bool)
        ensures
            ready == (self.state() is Ready),
    {
        match self.state {
            ComputeState::Ready => true,
            ComputeState::Loading => false,
        }
    }

    /// Moves on to `Ready` once every pipeline of `T` is compiled.  A node
    /// that is ready stays ready.
    pub fn update(&mut self, pipeline: &ComputePipeline<T>, cache: &PipelineCache)
        ensures
            final(self).state() == if old(self).state() is Ready || all_compiled(
                pipeline.pipelines@,
                cache@,
            ) {
                ComputeState::Ready
            } else {
                ComputeState::Loading
            },
    {
        match self.state {
            ComputeState::Ready => {},
            ComputeState::Loading => {
                let mut i: usize = 0;
                while i < pipeline.pipelines.len()
                    invariant
                        i <= pipeline.pipelines@.len(),
                        forall|j: int|
                            0 <= j < i ==> state_of(cache@, #[trigger] pipeline.pipelines@[j])
                                is Ready,
                    decreases pipeline.pipelines@.len() - i,
                {
                    match cache.get_compute_pipeline_state(pipeline.pipelines[i]) {
                        CachedPipelineState::Ready(_) => {},
                        _ => {
                            return ;
                        },
                    }
                    i += 1;
                }
                self.state = ComputeState::Ready;
            },
        }
    }

    /// Records the dispatch `job` of this cycle: its passes and what they
    /// were prepared with.  Nothing is recorded where there is no job, or
    /// while the pipelines are loading.
    pub fn run(
        &self,
        job: Option<(&RenderComputePasses<T>, &PreparedCompute<T>)>,
        pipeline: &ComputePipeline<T>,
        cache: &PipelineCache,
    ) -> (recorded: Result<CommandSequence, Error>)
        ensures
            recorded_view(recorded) == match job {
                Some((passes, prepared)) if self.state() is Ready => recording_of(
                    passes,
                    prepared,
                    entry_names(pipeline.entries@),
                    pipeline.pipelines@,
                    cache@,
                ),
                _ => Ok(
                    CommandSequenceView { commands: Seq::empty(), skipped: Seq::empty() },
                ),
            },
    {
        match job {
            Some((passes, prepared)) if self.is_ready() => encode(
                passes,
                prepared,
                &pipeline.entries,
                &pipeline.pipelines,
                cache,
            ),
            _ => {
                let nothing = CommandSequence { commands: Vec::new(), skipped: Vec::new() };
                assert(nothing@.skipped =~= Seq::empty());
                Ok(nothing)
            },
        }
    }
}

} // verus!
