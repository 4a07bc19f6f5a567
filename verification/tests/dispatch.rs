use bevy_sly_compute::error::{Error, StagingTarget};
use bevy_sly_compute::events::{Pass, Workgroups};
use bevy_sly_compute::node::{
    encode, encode_copies, encode_passes, Command, CommandSequence, ComputeNode,
};
use bevy_sly_compute::pipeline_cache::{
    CachedComputePipelineId, ComputePipelineDescriptor, PipelineCache, PipelineCacheError,
};
use bevy_sly_compute::prepare::{
    create_image_staging_buffers, create_staging_buffers, prepare_bind_group, PreparedBindGroup,
};
use bevy_sly_compute::resources::{
    find_buffer, BindingDescriptor, BindingKind, BufferDimensions, ComputePipeline,
    OwnedBindingResource, PreparedCompute, RenderComputePasses, StageBuffers, StagingBuffer,
};
use bevy_sly_compute::traits::{AssetId, ComputeShader, ShaderRef};
use std::marker::PhantomData;

#[derive(Clone)]
struct Sim;

impl ComputeShader for Sim {
    fn shader() -> ShaderRef {
        ShaderRef::Handle(AssetId::Index(3))
    }

    fn entry_points() -> Vec<&'static str> {
        vec!["index", "step", "draw"]
    }
}

fn pass(entry: &'static str, sizes: &[(u32, u32, u32)]) -> Pass {
    Pass {
        entry,
        workgroups: sizes.iter().map(|&(x, y, z)| Workgroups { x, y, z }).collect(),
    }
}

fn begin(entry: usize, pipeline: u64) -> Command {
    Command::BeginComputePass { entry, pipeline, bind_group: 77 }
}

fn dispatch(x: u32, y: u32, z: u32) -> Command {
    Command::DispatchWorkgroups { x, y, z }
}

fn buffer(id: u64, size: u64) -> OwnedBindingResource {
    OwnedBindingResource::Buffer { id, size }
}

fn slot(index: u32, kind: BindingKind, stage: bool) -> BindingDescriptor {
    BindingDescriptor { index, kind, visibility: 4, stage }
}

/// A cache with the three pipelines of `Sim`, compiled as 100, 101 and 102.
fn compiled() -> (PipelineCache, ComputePipeline<Sim>) {
    let mut cache = PipelineCache::new();
    let pipeline = ComputePipeline::<Sim>::new(&mut cache, AssetId::Index(3), 1);
    for (i, id) in pipeline.pipelines.iter().enumerate() {
        cache.process(*id, Ok(100 + i as u64));
    }
    (cache, pipeline)
}

fn image_dim() -> BufferDimensions {
    BufferDimensions { width: 8, height: 8, unpadded_bytes_per_row: 32, padded_bytes_per_row: 256 }
}

#[test]
fn passes_are_recorded_in_order_with_one_dispatch_per_size() {
    let (cache, pipeline) = compiled();
    let passes = vec![
        pass("step", &[(1, 1, 1), (64, 1, 1)]),
        pass("index", &[(4, 4, 1)]),
        pass("draw", &[]),
    ];
    let recorded = encode_passes(&passes, 77, &pipeline.entries, &pipeline.pipelines, &cache);
    assert_eq!(
        recorded,
        CommandSequence {
            commands: vec![
                begin(1, 101),
                dispatch(1, 1, 1),
                dispatch(64, 1, 1),
                Command::EndComputePass,
                begin(0, 100),
                dispatch(4, 4, 1),
                Command::EndComputePass,
                begin(2, 102),
                Command::EndComputePass,
            ],
            skipped: vec![],
        }
    );
}

#[test]
fn pass_without_pipeline_is_left_out_and_the_others_are_recorded() {
    let (cache, pipeline) = compiled();
    let passes = vec![
        pass("index", &[(1, 1, 1)]),
        pass("blur", &[(2, 2, 2)]),
        pass("draw", &[(3, 3, 3)]),
    ];
    let recorded = encode_passes(&passes, 77, &pipeline.entries, &pipeline.pipelines, &cache);
    assert_eq!(
        recorded.commands,
        vec![
            begin(0, 100),
            dispatch(1, 1, 1),
            Command::EndComputePass,
            begin(2, 102),
            dispatch(3, 3, 3),
            Command::EndComputePass,
        ]
    );
    assert_eq!(recorded.skipped, vec![Error::MissingPipeline("blur".to_string())]);
}

#[test]
fn entry_point_without_a_queued_pipeline_is_missing() {
    let (cache, pipeline) = compiled();
    let fewer = vec![pipeline.pipelines[0]];
    let passes = vec![pass("step", &[(1, 1, 1)]), pass("index", &[(1, 1, 1)])];
    let recorded = encode_passes(&passes, 77, &pipeline.entries, &fewer, &cache);
    assert_eq!(recorded.commands, vec![begin(0, 100), dispatch(1, 1, 1), Command::EndComputePass]);
    assert_eq!(recorded.skipped, vec![Error::MissingPipeline("step".to_string())]);
}

#[test]
fn pass_whose_pipeline_is_not_compiled_is_left_out() {
    let mut cache = PipelineCache::new();
    let pipeline = ComputePipeline::<Sim>::new(&mut cache, AssetId::Index(3), 1);
    cache.process(pipeline.pipelines[0], Ok(100));
    cache.process(pipeline.pipelines[2], Err(PipelineCacheError::ProcessShaderError));
    let passes = vec![
        pass("step", &[(1, 1, 1)]),
        pass("index", &[(2, 1, 1)]),
        pass("draw", &[(3, 1, 1)]),
    ];
    let recorded = encode_passes(&passes, 77, &pipeline.entries, &pipeline.pipelines, &cache);
    assert_eq!(recorded.commands, vec![begin(0, 100), dispatch(2, 1, 1), Command::EndComputePass]);
    // "step" is still to be compiled, "draw" has been given up
    assert_eq!(
        recorded.skipped,
        vec![Error::PipelineNotReady, Error::MissingPipeline("draw".to_string())]
    );
    cache.process(pipeline.pipelines[1], Err(PipelineCacheError::ShaderNotLoaded));
    let recorded = encode_passes(&passes, 77, &pipeline.entries, &pipeline.pipelines, &cache);
    assert_eq!(
        recorded.skipped,
        vec![Error::PipelineNotReady, Error::MissingPipeline("draw".to_string())]
    );
}

#[test]
fn pipeline_of_first_matching_entry_point_is_bound() {
    let mut cache = PipelineCache::new();
    let entries = vec!["a", "b", "a"];
    let ids: Vec<CachedComputePipelineId> = entries
        .iter()
        .enumerate()
        .map(|(layout, entry_point)| {
            cache.queue_compute_pipeline(ComputePipelineDescriptor {
                layout: layout as u64,
                push_constant_ranges: vec![],
                shader: AssetId::Index(1),
                shader_defs: vec![],
                entry_point,
            })
        })
        .collect();
    cache.process(ids[0], Ok(10));
    cache.process(ids[1], Ok(11));
    cache.process(ids[2], Ok(12));
    let recorded = encode_passes(&vec![pass("a", &[(1, 1, 1)])], 77, &entries, &ids, &cache);
    assert_eq!(recorded.commands, vec![begin(0, 10), dispatch(1, 1, 1), Command::EndComputePass]);
}

#[test]
fn first_binding_of_a_slot_backs_it() {
    let bindings = vec![
        (0, buffer(10, 4)),
        (1, OwnedBindingResource::TextureView { id: 11 }),
        (2, buffer(12, 16)),
        (2, buffer(13, 32)),
        (1, buffer(14, 8)),
        (3, OwnedBindingResource::Sampler { id: 15 }),
    ];
    assert_eq!(find_buffer(&bindings, 0), Some((10, 4)));
    assert_eq!(find_buffer(&bindings, 2), Some((12, 16)));
    assert_eq!(find_buffer(&bindings, 1), None);
    assert_eq!(find_buffer(&bindings, 3), None);
    assert_eq!(find_buffer(&bindings, 4), None);
    assert_eq!(find_buffer(&Vec::new(), 0), None);
}

#[test]
fn copies_follow_slots_then_images() {
    let staging = vec![(2, StagingBuffer { size: 16 }), (0, StagingBuffer { size: 4 })];
    let bindings = vec![(0, buffer(10, 4)), (2, buffer(12, 16))];
    let images = vec![(AssetId::Index(5), image_dim()), (AssetId::Index(6), BufferDimensions::new(100, 3, 4))];
    let mut commands = vec![Command::EndComputePass];
    assert_eq!(encode_copies(&mut commands, &staging, &bindings, &images, 2), Ok(()));
    assert_eq!(
        commands,
        vec![
            Command::EndComputePass,
            Command::CopyBufferToBuffer { source: 12, destination: 0, size: 16 },
            Command::CopyBufferToBuffer { source: 10, destination: 1, size: 4 },
            Command::CopyTextureToBuffer {
                image: AssetId::Index(5),
                destination: 0,
                bytes_per_row: 256,
                width: 8,
                height: 8,
            },
            Command::CopyTextureToBuffer {
                image: AssetId::Index(6),
                destination: 1,
                bytes_per_row: 512,
                width: 100,
                height: 3,
            },
        ]
    );
}

#[test]
fn copy_of_a_slot_without_buffer_fails_and_records_nothing() {
    let staging = vec![(0, StagingBuffer { size: 4 }), (7, StagingBuffer { size: 4 }), (9, StagingBuffer { size: 4 })];
    let bindings = vec![(0, buffer(10, 4)), (7, OwnedBindingResource::Sampler { id: 1 })];
    let mut commands = vec![Command::EndComputePass];
    assert_eq!(
        encode_copies(&mut commands, &staging, &bindings, &Vec::new(), 0),
        Err(Error::StagingBufferMissing(StagingTarget::Slot(7)))
    );
    assert_eq!(commands, vec![Command::EndComputePass]);
}

#[test]
fn copy_of_an_image_without_staging_buffer_fails() {
    let images = vec![(AssetId::Index(5), image_dim()), (AssetId::Index(6), image_dim())];
    let mut commands = Vec::new();
    assert_eq!(
        encode_copies(&mut commands, &Vec::new(), &Vec::new(), &images, 1),
        Err(Error::StagingBufferMissing(StagingTarget::Image(1)))
    );
    assert!(commands.is_empty());
}

#[test]
fn staging_buffers_have_the_size_of_what_backs_the_slot() {
    let descriptor = vec![
        slot(0, BindingKind::Uniform, false),
        slot(1, BindingKind::StorageBuffer, true),
        slot(2, BindingKind::StorageTexture, true),
        slot(3, BindingKind::Uniform, true),
        slot(4, BindingKind::StorageBuffer, false),
    ];
    let bindings = vec![
        (0, buffer(10, 4)),
        (1, buffer(11, 16)),
        (2, OwnedBindingResource::TextureView { id: 12 }),
        (3, buffer(13, 64)),
        (4, buffer(14, 8)),
    ];
    assert_eq!(
        create_staging_buffers(&descriptor, &bindings),
        Ok(StageBuffers {
            storage: vec![(1, StagingBuffer { size: 16 }), (3, StagingBuffer { size: 64 })],
        })
    );
    assert_eq!(create_staging_buffers(&Vec::new(), &bindings), Ok(StageBuffers { storage: vec![] }));
}

#[test]
fn staged_slot_without_buffer_cannot_be_staged() {
    let descriptor = vec![
        slot(0, BindingKind::StorageBuffer, true),
        slot(1, BindingKind::StorageBuffer, true),
        slot(2, BindingKind::StorageBuffer, true),
    ];
    let bindings = vec![(0, buffer(10, 4)), (2, buffer(12, 4))];
    assert_eq!(
        create_staging_buffers(&descriptor, &bindings),
        Err(Error::StagingBufferMissing(StagingTarget::Slot(1)))
    );
}

#[test]
fn image_staging_buffers_hold_the_padded_rows() {
    let images = vec![(AssetId::Index(5), image_dim()), (AssetId::Index(6), BufferDimensions::new(100, 3, 4))];
    assert_eq!(
        create_image_staging_buffers(&images),
        vec![StagingBuffer { size: 2048 }, StagingBuffer { size: 1536 }]
    );
}

fn passes_with_image() -> RenderComputePasses<Sim> {
    RenderComputePasses {
        passes: vec![pass("step", &[(8, 8, 1)])],
        images: vec![(AssetId::Index(5), image_dim())],
        _marker: PhantomData,
    }
}

#[test]
fn preparation_without_bindings_fails_recoverably() {
    let prepared = prepare_bind_group(None, &Vec::new(), &passes_with_image());
    match prepared {
        Err(e) => {
            assert_eq!(e, Error::BindGroupPrepareFailed);
            assert!(e.recoverable());
        }
        Ok(_) => panic!("prepared without bindings"),
    }
}

#[test]
fn preparation_allocates_all_staging_buffers() {
    let descriptor = vec![slot(0, BindingKind::StorageBuffer, true), slot(1, BindingKind::StorageTexture, true)];
    let group = PreparedBindGroup {
        bindings: vec![(0, buffer(10, 48)), (1, OwnedBindingResource::TextureView { id: 11 })],
        bind_group: 77,
    };
    let prepared = prepare_bind_group(Some(group), &descriptor, &passes_with_image()).ok().unwrap();
    assert_eq!(prepared.bind_group, 77);
    assert_eq!(prepared.bindings.len(), 2);
    assert_eq!(prepared.staging_buffers.storage, vec![(0, StagingBuffer { size: 48 })]);
    assert_eq!(prepared.staging_image_buffers, vec![StagingBuffer { size: 2048 }]);
}

#[test]
fn preparation_fails_where_a_staged_slot_has_no_buffer() {
    let descriptor = vec![slot(3, BindingKind::StorageBuffer, true)];
    let group = PreparedBindGroup { bindings: vec![(0, buffer(10, 48))], bind_group: 77 };
    match prepare_bind_group(Some(group), &descriptor, &passes_with_image()) {
        Err(e) => {
            assert_eq!(e, Error::StagingBufferMissing(StagingTarget::Slot(3)));
            assert!(!e.recoverable());
        }
        Ok(_) => panic!("prepared without buffer"),
    }
}

fn prepared_with_image() -> PreparedCompute<Sim> {
    PreparedCompute {
        bindings: vec![(0, buffer(10, 48)), (1, OwnedBindingResource::TextureView { id: 11 })],
        bind_group: 77,
        staging_buffers: StageBuffers { storage: vec![(0, StagingBuffer { size: 48 })] },
        staging_image_buffers: vec![StagingBuffer { size: 2048 }],
        _marker: PhantomData,
    }
}

fn full_recording() -> Vec<Command> {
    vec![
        begin(1, 101),
        dispatch(8, 8, 1),
        Command::EndComputePass,
        Command::CopyBufferToBuffer { source: 10, destination: 0, size: 48 },
        Command::CopyTextureToBuffer {
            image: AssetId::Index(5),
            destination: 0,
            bytes_per_row: 256,
            width: 8,
            height: 8,
        },
    ]
}

#[test]
fn dispatch_is_passes_then_copies() {
    let (cache, pipeline) = compiled();
    let recorded = encode(
        &passes_with_image(),
        &prepared_with_image(),
        &pipeline.entries,
        &pipeline.pipelines,
        &cache,
    );
    assert_eq!(recorded, Ok(CommandSequence { commands: full_recording(), skipped: vec![] }));
}

#[test]
fn dispatch_is_given_up_where_a_staging_buffer_cannot_be_filled() {
    let (cache, pipeline) = compiled();
    let mut prepared = prepared_with_image();
    prepared.staging_image_buffers.clear();
    let recorded =
        encode(&passes_with_image(), &prepared, &pipeline.entries, &pipeline.pipelines, &cache);
    assert_eq!(recorded, Err(Error::StagingBufferMissing(StagingTarget::Image(0))));

    let mut prepared = prepared_with_image();
    prepared.bindings.remove(0);
    let recorded =
        encode(&passes_with_image(), &prepared, &pipeline.entries, &pipeline.pipelines, &cache);
    assert_eq!(recorded, Err(Error::StagingBufferMissing(StagingTarget::Slot(0))));
}

#[test]
fn node_records_nothing_while_loading_or_without_a_job() {
    let (cache, pipeline) = compiled();
    let passes = passes_with_image();
    let prepared = prepared_with_image();
    let nothing = Ok(CommandSequence { commands: vec![], skipped: vec![] });

    let mut node = ComputeNode::<Sim>::default();
    assert_eq!(node.run(Some((&passes, &prepared)), &pipeline, &cache), nothing);
    node.update(&pipeline, &cache);
    assert_eq!(node.run(None, &pipeline, &cache), nothing);
}

#[test]
fn node_that_is_ready_records_the_dispatch() {
    let (cache, pipeline) = compiled();
    let passes = passes_with_image();
    let prepared = prepared_with_image();
    let mut node = ComputeNode::<Sim>::default();
    node.update(&pipeline, &cache);
    assert_eq!(
        node.run(Some((&passes, &prepared)), &pipeline, &cache),
        Ok(CommandSequence { commands: full_recording(), skipped: vec![] })
    );
}

#[test]
fn ids_name_the_pipelines_in_queue_order() {
    let (_, pipeline) = compiled();
    assert_eq!(
        pipeline.pipelines,
        vec![
            CachedComputePipelineId { index: 0 },
            CachedComputePipelineId { index: 1 },
            CachedComputePipelineId { index: 2 },
        ]
    );
}
