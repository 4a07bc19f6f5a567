use bevy_sly_compute::channel::{create_compute_channels, listen_receiver, read_and_send, Watched};
use bevy_sly_compute::events::{AssetEvent, ComputeEvent, Workgroups};
use bevy_sly_compute::extract::{extract_resource, ImageInfo};
use bevy_sly_compute::node::{Command, CommandSequence, ComputeNode};
use bevy_sly_compute::pipeline_cache::PipelineCache;
use bevy_sly_compute::plugin::{finish, run, ComputeRetryLimit, ComputeWorker, WorkerStep};
use bevy_sly_compute::prepare::{prepare_bind_group, PreparedBindGroup};
use bevy_sly_compute::readback::read_back;
use bevy_sly_compute::resources::{
    BindingDescriptor, BindingKind, BufferDimensions, ComputePipeline, OwnedBindingResource,
    StagingBuffer,
};
use bevy_sly_compute::traits::{AssetId, ComputeShader, ShaderRef};
use std::collections::HashMap;

/// A device that lives in memory.  It runs one shader per pipeline, once per
/// workgroup, and carries out the copies as a real device would: rows of an
/// image land at multiples of the padded row length, and what lies between
/// them is left as it was.
struct FakeDevice {
    buffers: HashMap<u64, Vec<u8>>,
    textures: HashMap<AssetId, Vec<u8>>,
    shaders: HashMap<u64, fn(&mut FakeDevice, u32, u32, u32)>,
}

impl FakeDevice {
    fn new() -> Self {
        FakeDevice { buffers: HashMap::new(), textures: HashMap::new(), shaders: HashMap::new() }
    }

    /// Carries out `commands` and returns the staging buffers, those of the
    /// slots and those of the images, as they are mapped afterwards.
    fn submit(
        &mut self,
        commands: &CommandSequence,
        slots: &[(u32, StagingBuffer)],
        images: &[StagingBuffer],
    ) -> (Vec<Option<Vec<u8>>>, Vec<Option<Vec<u8>>>) {
        let mut slot_staging: Vec<Vec<u8>> =
            slots.iter().map(|(_, b)| vec![0xcd; b.size as usize]).collect();
        let mut image_staging: Vec<Vec<u8>> =
            images.iter().map(|b| vec![0xcd; b.size as usize]).collect();
        let mut bound = None;
        for command in &commands.commands {
            match *command {
                Command::BeginComputePass { pipeline, .. } => bound = Some(pipeline),
                Command::DispatchWorkgroups { x, y, z } => {
                    let shader = self.shaders[&bound.unwrap()];
                    for k in 0..z {
                        for j in 0..y {
                            for i in 0..x {
                                shader(self, i, j, k);
                            }
                        }
                    }
                }
                Command::EndComputePass => bound = None,
                Command::CopyBufferToBuffer { source, destination, size } => {
                    let size = size as usize;
                    slot_staging[destination][..size].copy_from_slice(&self.buffers[&source][..size]);
                }
                Command::CopyTextureToBuffer { image, destination, bytes_per_row, width, height } => {
                    let texture = &self.textures[&image];
                    let row_bytes = texture.len() / height;
                    assert_eq!(row_bytes % width, 0);
                    for row in 0..height {
                        image_staging[destination][row * bytes_per_row..row * bytes_per_row + row_bytes]
                            .copy_from_slice(&texture[row * row_bytes..(row + 1) * row_bytes]);
                    }
                }
            }
        }
        (
            slot_staging.into_iter().map(Some).collect(),
            image_staging.into_iter().map(Some).collect(),
        )
    }
}

#[derive(Clone, Debug, PartialEq)]
struct Scale {
    k: f32,
    values: Vec<f32>,
}

impl ComputeShader for Scale {
    fn shader() -> ShaderRef {
        ShaderRef::Handle(AssetId::Index(1))
    }
}

const K_BUFFER: u64 = 10;
const VALUES_BUFFER: u64 = 11;

/// Multiplies the element at the invocation's position by `k`.
fn scale_shader(device: &mut FakeDevice, x: u32, _y: u32, _z: u32) {
    let k: f32 = bytemuck::pod_read_unaligned(&device.buffers[&K_BUFFER]);
    let at = x as usize * 4;
    let values = device.buffers.get_mut(&VALUES_BUFFER).unwrap();
    let value: f32 = bytemuck::pod_read_unaligned(&values[at..at + 4]);
    values[at..at + 4].copy_from_slice(bytemuck::bytes_of(&(value * k)));
}

#[test]
fn array_is_scaled_and_read_back() {
    let data = Scale { k: 2.0, values: vec![1.0, 2.0, 3.0, 4.0] };
    let descriptor = vec![
        BindingDescriptor { index: 0, kind: BindingKind::Uniform, visibility: 4, stage: false },
        BindingDescriptor { index: 1, kind: BindingKind::StorageBuffer, visibility: 4, stage: true },
    ];

    let mut cache = PipelineCache::new();
    let worker = ComputeWorker::<Scale>::new(&mut cache, AssetId::Index(1), 1);
    cache.process(worker.pipelines[0], Ok(100));

    let mut device = FakeDevice::new();
    device.shaders.insert(100, scale_shader);
    device.buffers.insert(K_BUFFER, bytemuck::bytes_of(&data.k).to_vec());
    device.buffers.insert(VALUES_BUFFER, bytemuck::cast_slice(&data.values).to_vec());
    let group = PreparedBindGroup {
        bindings: vec![
            (0, OwnedBindingResource::Buffer { id: K_BUFFER, size: 4 }),
            (1, OwnedBindingResource::Buffer { id: VALUES_BUFFER, size: 16 }),
        ],
        bind_group: 5,
    };

    let event = ComputeEvent::<Scale>::new(Workgroups::new(4, 1, 1));
    let limit = ComputeRetryLimit::default();
    let (step, warnings) = run(&event, Some(group), &descriptor, &Vec::new(), &worker, &cache, &limit);
    assert!(warnings.is_empty());
    let (passes, prepared, commands) = match step {
        WorkerStep::Submit { passes, prepared, commands } => (passes, prepared, commands),
        _ => panic!("not submitted"),
    };
    assert_eq!(
        commands.commands,
        vec![
            Command::BeginComputePass { entry: 0, pipeline: 100, bind_group: 5 },
            Command::DispatchWorkgroups { x: 4, y: 1, z: 1 },
            Command::EndComputePass,
            Command::CopyBufferToBuffer { source: VALUES_BUFFER, destination: 0, size: 16 },
        ]
    );

    let (mapped_slots, mapped_images) =
        device.submit(&commands, &prepared.staging_buffers.storage, &prepared.staging_image_buffers);
    let done = finish(&passes, &prepared, &mapped_slots, &mapped_images).ok().unwrap();
    assert!(done.asset_events.is_empty());
    assert!(!done.complete.dont_copy);
    let results = done.results;
    assert_eq!(results.storage.len(), 1);
    assert_eq!(results.storage[0].0, 1);
    let values: Vec<f32> =
        results.storage[0].1.chunks(4).map(|bytes| bytemuck::pod_read_unaligned(bytes)).collect();
    assert_eq!(values, vec![2.0, 4.0, 6.0, 8.0]);
    assert!(results.images.is_empty());
}

#[test]
fn staged_bytes_round_trip_exactly() {
    let written: Vec<u8> = (0..=255).collect();
    let descriptor =
        vec![BindingDescriptor { index: 3, kind: BindingKind::StorageBuffer, visibility: 4, stage: true }];
    let mut cache = PipelineCache::new();
    let worker = ComputeWorker::<Scale>::new(&mut cache, AssetId::Index(1), 1);
    let mut device = FakeDevice::new();
    device.buffers.insert(40, written.clone());
    let group = PreparedBindGroup {
        bindings: vec![(3, OwnedBindingResource::Buffer { id: 40, size: 256 })],
        bind_group: 5,
    };
    let mut event = ComputeEvent::<Scale>::default();
    event.passes.clear();
    let limit = ComputeRetryLimit::default();
    let step = run(&event, Some(group), &descriptor, &Vec::new(), &worker, &cache, &limit).0;
    let (prepared, commands) = match step {
        WorkerStep::Submit { prepared, commands, .. } => (prepared, commands),
        _ => panic!("not submitted"),
    };
    let (mapped, _) = device.submit(&commands, &prepared.staging_buffers.storage, &[]);
    let results =
        read_back(&prepared.staging_buffers.storage, &Vec::new(), &mapped, &Vec::new()).unwrap();
    assert_eq!(results.storage, vec![(3, written)]);
}

#[derive(Clone, Debug, PartialEq)]
struct Fill {
    image: AssetId,
}

impl ComputeShader for Fill {
    fn shader() -> ShaderRef {
        ShaderRef::Path("fill.wgsl".to_string())
    }
}

const CANVAS: AssetId = AssetId::Index(30);

/// Paints the pixel at the invocation's position red.
fn fill_shader(device: &mut FakeDevice, x: u32, y: u32, _z: u32) {
    let at = (y as usize * 8 + x as usize) * 4;
    device.textures.get_mut(&CANVAS).unwrap()[at..at + 4].copy_from_slice(&[255, 0, 0, 255]);
}

#[test]
fn image_is_filled_and_read_back_without_padding() {
    let descriptor =
        vec![BindingDescriptor { index: 0, kind: BindingKind::StorageTexture, visibility: 4, stage: true }];
    let images = vec![ImageInfo { handle: CANVAS, width: 8, height: 8, pixel_size: 4 }];
    assert!(images[0].representable());

    let mut cache = PipelineCache::new();
    let pipeline = ComputePipeline::<Fill>::new(&mut cache, AssetId::Index(2), 1);
    let mut node = ComputeNode::<Fill>::default();
    cache.process(pipeline.pipelines[0], Ok(200));
    node.update(&pipeline, &cache);
    assert!(node.is_ready());

    let mut device = FakeDevice::new();
    device.shaders.insert(200, fill_shader);
    device.textures.insert(CANVAS, vec![0; 8 * 8 * 4]);

    let (sender, receiver) = create_compute_channels::<Fill>();
    let mut owner = Watched::new(Fill { image: CANVAS });
    owner.clear_changed();

    // the owner asks for a dispatch that covers the image
    let events = vec![ComputeEvent::<Fill>::new(Workgroups::new(8, 8, 1))];
    let (passes, warnings) = extract_resource(&events, &images, &pipeline.entries);
    assert!(warnings.is_empty());
    let passes = passes.unwrap();
    assert_eq!(
        passes.images,
        vec![(
            CANVAS,
            BufferDimensions {
                width: 8,
                height: 8,
                unpadded_bytes_per_row: 32,
                padded_bytes_per_row: 256,
            }
        )]
    );

    // the device context prepares, records and submits
    let group = PreparedBindGroup {
        bindings: vec![(0, OwnedBindingResource::TextureView { id: 31 })],
        bind_group: 6,
    };
    let prepared = prepare_bind_group(Some(group), &descriptor, &passes).ok().unwrap();
    assert!(prepared.staging_buffers.storage.is_empty());
    assert_eq!(prepared.staging_image_buffers, vec![StagingBuffer { size: 2048 }]);
    let commands = node.run(Some((&passes, &prepared)), &pipeline, &cache).unwrap();
    assert_eq!(
        commands.commands,
        vec![
            Command::BeginComputePass { entry: 0, pipeline: 200, bind_group: 6 },
            Command::DispatchWorkgroups { x: 8, y: 8, z: 1 },
            Command::EndComputePass,
            Command::CopyTextureToBuffer {
                image: CANVAS,
                destination: 0,
                bytes_per_row: 256,
                width: 8,
                height: 8,
            },
        ]
    );
    let (_, mapped_images) =
        device.submit(&commands, &prepared.staging_buffers.storage, &prepared.staging_image_buffers);
    assert_eq!(mapped_images[0].as_ref().unwrap().len(), 2048);
    // what lies between the rows is not part of the image
    assert_eq!(mapped_images[0].as_ref().unwrap()[32], 0xcd);

    // the results go back to the owner
    let sent = read_and_send(Fill { image: CANVAS }, &passes, &prepared, &mapped_images, &sender);
    assert_eq!(sent, Ok(()));
    let delivered = listen_receiver(&mut owner, &receiver).unwrap();
    assert!(!owner.changed());
    assert_eq!(delivered.images.len(), 1);
    assert_eq!(delivered.images[0].0, CANVAS);
    let pixels = &delivered.images[0].1;
    assert_eq!(pixels.len(), 64 * 4);
    for pixel in pixels.chunks(4) {
        assert_eq!(pixel, &[255, 0, 0, 255]);
    }
}

#[test]
fn image_is_filled_and_written_back_by_the_worker() {
    let descriptor =
        vec![BindingDescriptor { index: 0, kind: BindingKind::StorageTexture, visibility: 4, stage: true }];
    let images = vec![ImageInfo { handle: CANVAS, width: 8, height: 8, pixel_size: 4 }];

    let mut cache = PipelineCache::new();
    let worker = ComputeWorker::<Fill>::new(&mut cache, AssetId::Index(2), 1);
    cache.process(worker.pipelines[0], Ok(200));
    let mut device = FakeDevice::new();
    device.shaders.insert(200, fill_shader);
    device.textures.insert(CANVAS, vec![0; 8 * 8 * 4]);

    let event = ComputeEvent::<Fill>::new(Workgroups::new(8, 8, 1));
    let group = PreparedBindGroup {
        bindings: vec![(0, OwnedBindingResource::TextureView { id: 31 })],
        bind_group: 6,
    };
    let limit = ComputeRetryLimit::default();
    let step = run(&event, Some(group), &descriptor, &images, &worker, &cache, &limit).0;
    let (passes, prepared, commands) = match step {
        WorkerStep::Submit { passes, prepared, commands } => (passes, prepared, commands),
        _ => panic!("not submitted"),
    };
    assert_eq!(prepared.staging_image_buffers, vec![StagingBuffer { size: 2048 }]);
    assert_eq!(
        commands.commands.last(),
        Some(&Command::CopyTextureToBuffer {
            image: CANVAS,
            destination: 0,
            bytes_per_row: 256,
            width: 8,
            height: 8,
        })
    );
    let (slots, rows) =
        device.submit(&commands, &prepared.staging_buffers.storage, &prepared.staging_image_buffers);
    let done = finish(&passes, &prepared, &slots, &rows).ok().unwrap();
    assert_eq!(done.asset_events, vec![AssetEvent::Modified { id: CANVAS }]);
    assert!(!done.complete.dont_copy);
    assert_eq!(done.results.images.len(), 1);
    assert_eq!(done.results.images[0].0, CANVAS);
    let pixels = &done.results.images[0].1;
    assert_eq!(pixels.len(), 256);
    for pixel in pixels.chunks(4) {
        assert_eq!(pixel, &[255, 0, 0, 255]);
    }
}
