//! The staging buffers of one dispatch.
//!
//! Every binding slot that is read back gets a staging buffer of exactly the
//! size of the buffer that backs it on the device.  Every image that is read
//! back gets one that holds its padded rows.

use crate::error::{
    collect, lemma_collect_all, lemma_collect_values, Error, ErrorView, StagingTarget,
};
use crate::node::{buffer_copies, Command};
use crate::resources::{
    buffer_of, find_buffer, layouts_fit, BindingDescriptor, BufferDimensions,
    OwnedBindingResource, PreparedCompute, RenderComputePasses, StageBuffers, StagingBuffer,
};
use crate::traits::{AssetId, ComputeTrait};
use std::marker::PhantomData;
use vstd::prelude::*;

verus! {

/// The bindings of a data object as the device has prepared them: the
/// resource behind each binding slot, and the bind group.
#[derive(Debug, PartialEq, Eq)]
pub struct PreparedBindGroup {
    pub bindings: Vec<(u32, OwnedBindingResource)>,
    pub bind_group: u64,
}

/// The staging buffer for the slot of `binding`: one of the size of the
/// buffer that backs the slot.
pub open spec fn staging_for(
    binding: BindingDescriptor,
    bindings: Seq<(u32, OwnedBindingResource)>,
) -> Result<(u32, StagingBuffer), ErrorView> {
    match buffer_of(bindings, binding.index) {
        Some((_, size)) => Ok((binding.index, StagingBuffer { size })),
        None => Err(ErrorView::StagingBufferMissing(StagingTarget::Slot(binding.index))),
    }
}

/// The staging buffer for each slot of `descriptor` that is read back, in
/// the order of `descriptor`.
pub open spec fn staged_slots(
    descriptor: Seq<BindingDescriptor>,
    bindings: Seq<(u32, OwnedBindingResource)>,
) -> Seq<Result<(u32, StagingBuffer), ErrorView>> {
    descriptor.filter(|b: BindingDescriptor| b.is_staged_buffer()).map_values(
        |b: BindingDescriptor| staging_for(b, bindings),
    )
}

/// The staging buffers for the slots of `descriptor`; or the first slot that
/// is read back and has no buffer on the device.
pub open spec fn staging_plan(
    descriptor: Seq<BindingDescriptor>,
    bindings: Seq<(u32, OwnedBindingResource)>,
) -> Result<Seq<(u32, StagingBuffer)>, ErrorView> {
    collect(staged_slots(descriptor, bindings))
}

/// The staging buffer for each of `images`: one that holds its padded rows.
pub open spec fn image_buffers(images: Seq<(AssetId, BufferDimensions)>) -> Seq<StagingBuffer> {
    images.map_values(
        |image: (AssetId, BufferDimensions)|
            StagingBuffer { size: image.1.spec_buffer_size() as u64 },
    )
}

/// One more slot adds its staging buffer where it is read back, and nothing
/// where it is not.
proof fn lemma_staged_slots_step(
    descriptor: Seq<BindingDescriptor>,
    bindings: Seq<(u32, OwnedBindingResource)>,
    i: int,
)
    requires
        0 <= i < descriptor.len(),
    ensures
        staged_slots(descriptor.take(i + 1), bindings) == if descriptor[i].is_staged_buffer() {
            staged_slots(descriptor.take(i), bindings).push(staging_for(descriptor[i], bindings))
        } else {
            staged_slots(descriptor.take(i), bindings)
        },
{
    reveal(Seq::filter);
    assert(descriptor.take(i + 1).drop_last() =~= descriptor.take(i));
    let staged = |b: BindingDescriptor| b.is_staged_buffer();
    if descriptor[i].is_staged_buffer() {
        assert(descriptor.take(i + 1).filter(staged) == descriptor.take(i).filter(staged).push(
            descriptor[i],
        ));
        assert(staged_slots(descriptor.take(i + 1), bindings) =~= staged_slots(
            descriptor.take(i),
            bindings,
        ).push(staging_for(descriptor[i], bindings)));
    }
}

/// Allocates a staging buffer for each slot of `descriptor` that is read
/// back, sized as the buffer that backs the slot in `bindings`.
pub fn create_staging_buffers(
    descriptor: &Vec<BindingDescriptor>,
    bindings: &Vec<(u32, OwnedBindingResource)>,
) -> (staging: Result<StageBuffers, Error>)
    ensures
        match staging_plan(descriptor@, bindings@) {
            Ok(plan) => staging is Ok && staging->Ok_0.storage@ == plan,
            Err(e) => staging is Err && staging->Err_0@ == e,
        },
{
    let mut storage: Vec<(u32, StagingBuffer)> = Vec::new();
    let mut i: usize = 0;
    proof {
        reveal(Seq::filter);
        assert(descriptor@.take(0) =~= Seq::empty());
        assert(staged_slots(descriptor@.take(0), bindings@) =~= Seq::empty());
    }
    while i < descriptor.len()
        invariant
            i <= descriptor@.len(),
            collect(staged_slots(descriptor@.take(i as int), bindings@)) == Ok::<_, ErrorView>(
                storage@,
            ),
        decreases descriptor@.len() - i,
    {
        let binding = descriptor[i];
        proof {
            lemma_staged_slots_step(descriptor@, bindings@, i as int);
            let longer = staged_slots(descriptor@.take(i + 1), bindings@);
            if binding.is_staged_buffer() {
                assert(longer.drop_last() =~= staged_slots(descriptor@.take(i as int), bindings@));
            }
        }
        if binding.staged_buffer() {
            match find_buffer(bindings, binding.index) {
                Some((_, size)) => {
                    storage.push((binding.index, StagingBuffer { size }));
                },
                None => {
                    proof {
                        lemma_staging_plan_fails(descriptor@, bindings@, i + 1);
                    }
                    return Err(Error::StagingBufferMissing(StagingTarget::Slot(binding.index)));
                },
            }
        }
        i += 1;
    }
    assert(descriptor@.take(i as int) =~= descriptor@);
    Ok(StageBuffers { storage })
}

/// Once a slot among the first `n` has no buffer on the device, the plan
/// fails with the first such slot.
proof fn lemma_staging_plan_fails(
    descriptor: Seq<BindingDescriptor>,
    bindings: Seq<(u32, OwnedBindingResource)>,
    n: int,
)
    requires
        0 <= n <= descriptor.len(),
        staging_plan(descriptor.take(n), bindings) is Err,
    ensures
        staging_plan(descriptor, bindings) == staging_plan(descriptor.take(n), bindings),
    decreases descriptor.len() - n,
{
    if n < descriptor.len() {
        lemma_staged_slots_step(descriptor, bindings, n);
        let longer = staged_slots(descriptor.take(n + 1), bindings);
        if descriptor[n].is_staged_buffer() {
            assert(longer.drop_last() =~= staged_slots(descriptor.take(n), bindings));
        }
        lemma_staging_plan_fails(descriptor, bindings, n + 1);
    } else {
        assert(descriptor.take(n) =~= descriptor);
    }
}

/// Allocates the staging buffer of each of `images`.
pub fn create_image_staging_buffers(images: &Vec<(AssetId, BufferDimensions)>) -> (buffers: Vec<
    StagingBuffer,
>)
    requires
        layouts_fit(images@),
    ensures
        buffers@ == image_buffers(images@),
{
    let mut buffers: Vec<StagingBuffer> = Vec::new();
    let mut i: usize = 0;
    while i < images.len()
        invariant
            i <= images@.len(),
            layouts_fit(images@),
            buffers@ == image_buffers(images@).take(i as int),
        decreases images@.len() - i,
    {
        let (_, dim) = images[i];
        assert(images@[i as int].1.allocatable());
        buffers.push(StagingBuffer { size: dim.buffer_size() });
        assert(buffers@ =~= image_buffers(images@).take(i + 1));
        i += 1;
    }
    assert(image_buffers(images@).take(i as int) =~= image_buffers(images@));
    buffers
}

/// Completes the preparation of one dispatch.  `prepared` is what the device
/// made of the data object's bindings, or `None` where a resource that they
/// depend on was not available: then the preparation fails with
/// `BindGroupPrepareFailed`, and the job may be tried again.  Otherwise the
/// staging buffers are allocated: for the slots of `descriptor` that are read
/// back, and for the images of `passes`.
pub fn prepare_bind_group<T: ComputeTrait>(
    prepared: Option<PreparedBindGroup>,
    descriptor: &Vec<BindingDescriptor>,
    passes: &RenderComputePasses<T>,
) -> (compute: Result<PreparedCompute<T>, Error>)
    requires
        layouts_fit(passes.images@),
    ensures
        match prepared {
            None => compute is Err && compute->Err_0@ == ErrorView::BindGroupPrepareFailed,
            Some(group) => match staging_plan(descriptor@, group.bindings@) {
                Err(e) => compute is Err && compute->Err_0@ == e,
                Ok(plan) => {
                    &&& compute is Ok
                    &&& compute->Ok_0.bindings@ == group.bindings@
                    &&& compute->Ok_0.bind_group == group.bind_group
                    &&& compute->Ok_0.staging_buffers.storage@ == plan
                    &&& compute->Ok_0.staging_image_buffers@ == image_buffers(passes.images@)
                },
            },
        },
{
    let group = match prepared {
        None => {
            return Err(Error::BindGroupPrepareFailed);
        },
        Some(group) => group,
    };
    let staging_buffers = match create_staging_buffers(descriptor, &group.bindings) {
        Err(e) => {
            return Err(e);
        },
        Ok(staging) => staging,
    };
    let staging_image_buffers = create_image_staging_buffers(&passes.images);
    Ok(
        PreparedCompute {
            bindings: group.bindings,
            bind_group: group.bind_group,
            staging_buffers,
            staging_image_buffers,
            _marker: PhantomData,
        },
    )
}

/// The staging buffer for each slot of `descriptor` that is read back, sized
/// as the buffer that backs the slot.
pub open spec fn backed_staging(
    descriptor: Seq<BindingDescriptor>,
    bindings: Seq<(u32, OwnedBindingResource)>,
) -> Seq<(u32, StagingBuffer)> {
    descriptor.filter(|b: BindingDescriptor| b.is_staged_buffer()).map_values(
        |b: BindingDescriptor|
            (b.index, StagingBuffer { size: buffer_of(bindings, b.index)->Some_0.1 }),
    )
}

/// Where every slot that is read back is backed by a buffer on the device,
/// the staging buffers can be allocated: one for each such slot, in the
/// order of the slots, of exactly the size of the buffer behind the slot.
pub proof fn lemma_backed_slots_are_staged(
    descriptor: Seq<BindingDescriptor>,
    bindings: Seq<(u32, OwnedBindingResource)>,
)
    requires
        forall|i: int|
            0 <= i < descriptor.len() && (#[trigger] descriptor[i]).is_staged_buffer()
                ==> buffer_of(bindings, descriptor[i].index) is Some,
    ensures
        staging_plan(descriptor, bindings) == Ok::<_, ErrorView>(
            backed_staging(descriptor, bindings),
        ),
{
    let staged = |b: BindingDescriptor| b.is_staged_buffer();
    let slots = descriptor.filter(staged);
    let plan = backed_staging(descriptor, bindings);
    assert forall|k: int| 0 <= k < slots.len() implies staging_for(#[trigger] slots[k], bindings)
        == Ok::<_, ErrorView>(plan[k]) by {
        descriptor.lemma_filter_pred(staged, k);
        assert(slots.contains(slots[k]));
        descriptor.lemma_filter_contains_rev(staged, slots[k]);
        let i = choose|i: int| 0 <= i < descriptor.len() && descriptor[i] == slots[k];
        assert(descriptor[i].is_staged_buffer());
    }
    assert(staged_slots(descriptor, bindings) =~= plan.map_values(
        |v: (u32, StagingBuffer)| Ok::<(u32, StagingBuffer), ErrorView>(v),
    ));
    lemma_collect_values(plan);
}

/// The copy that fills the staging buffer at position `i` of `staging`: all
/// of the buffer that backs its slot.
pub open spec fn slot_copy(
    staging: Seq<(u32, StagingBuffer)>,
    bindings: Seq<(u32, OwnedBindingResource)>,
    i: int,
) -> Command {
    Command::CopyBufferToBuffer {
        source: buffer_of(bindings, staging[i].0)->Some_0.0,
        destination: i as usize,
        size: staging[i].1.size,
    }
}

/// The staging buffers that are allocated for a dispatch can all be filled:
/// each is copied into from the buffer that backs its slot, and has exactly
/// the size of that buffer.
pub proof fn lemma_staging_is_backed(
    descriptor: Seq<BindingDescriptor>,
    bindings: Seq<(u32, OwnedBindingResource)>,
)
    requires
        staging_plan(descriptor, bindings) is Ok,
    ensures
        buffer_copies(staging_plan(descriptor, bindings)->Ok_0, bindings) == Ok::<_, ErrorView>(
            Seq::new(
                staging_plan(descriptor, bindings)->Ok_0.len(),
                |i: int| slot_copy(staging_plan(descriptor, bindings)->Ok_0, bindings, i),
            ),
        ),
{
    let plan = staging_plan(descriptor, bindings)->Ok_0;
    let slots = staged_slots(descriptor, bindings);
    lemma_collect_all(slots);
    assert forall|i: int| 0 <= i < plan.len() implies (#[trigger] buffer_of(bindings, plan[i].0))
        is Some && buffer_of(bindings, plan[i].0)->Some_0.1 == plan[i].1.size by {
        assert(slots[i] == Ok::<_, ErrorView>(plan[i]));
    }
    lemma_backed_staging_is_copied(plan, bindings, plan.len() as int);
    assert(plan.take(plan.len() as int) =~= plan);
}

/// Staging buffers whose slots are all backed are all copied into.
proof fn lemma_backed_staging_is_copied(
    staging: Seq<(u32, StagingBuffer)>,
    bindings: Seq<(u32, OwnedBindingResource)>,
    n: int,
)
    requires
        0 <= n <= staging.len(),
        forall|i: int|
            0 <= i < staging.len() ==> (#[trigger] buffer_of(bindings, staging[i].0)) is Some
                && buffer_of(bindings, staging[i].0)->Some_0.1 == staging[i].1.size,
    ensures
        buffer_copies(staging.take(n), bindings) == Ok::<_, ErrorView>(
            Seq::new(n as nat, |i: int| slot_copy(staging, bindings, i)),
        ),
    decreases n,
{
    let copies = Seq::new(n as nat, |i: int| slot_copy(staging, bindings, i));
    if n == 0 {
        assert(copies =~= Seq::empty());
    } else {
        lemma_backed_staging_is_copied(staging, bindings, n - 1);
        assert(staging.take(n).drop_last() =~= staging.take(n - 1));
        assert(staging.take(n).last() == staging[n - 1]);
        assert(buffer_of(bindings, staging[n - 1].0) is Some);
        assert(copies =~= Seq::new((n - 1) as nat, |i: int| slot_copy(staging, bindings, i)).push(
            slot_copy(staging, bindings, n - 1),
        ));
    }
}

} // verus!
