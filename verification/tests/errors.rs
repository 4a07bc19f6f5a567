use bevy_sly_compute::error::{Error, StagingTarget};
use bevy_sly_compute::setup::{ComputeApp, ComputePlugin, ComputeWorkerPlugin, MainComputePlugin};
use bevy_sly_compute::traits::{AssetId, ComputeShader, ShaderRef};

#[derive(Clone, Debug, PartialEq)]
struct Thing;

impl ComputeShader for Thing {
    fn shader() -> ShaderRef {
        ShaderRef::Handle(AssetId::Index(3))
    }
}

#[test]
fn each_error_has_its_message() {
    assert_eq!(
        Error::MissingPipeline("blur".to_string()).message(),
        "Missing pipeline for entry point `blur`."
    );
    assert_eq!(Error::MissingPipeline(String::new()).message(), "Missing pipeline for entry point ``.");
    assert_eq!(Error::PipelineNotReady.message(), "Pipeline isn't ready yet.");
    assert_eq!(Error::BindGroupPrepareFailed.message(), "Bind group could not be prepared.");
    assert_eq!(
        Error::StagingBufferMissing(StagingTarget::Slot(3)).message(),
        "Staging buffer of a binding slot not found."
    );
    assert_eq!(
        Error::StagingBufferMissing(StagingTarget::Image(0)).message(),
        "Staging buffer of an image not found."
    );
    assert_eq!(Error::MappingFailed.message(), "Staging buffer could not be mapped.");
    assert_eq!(Error::ChannelFull.message(), "The channel of results is full.");
}

#[test]
fn only_unready_pipelines_and_bindings_are_recoverable() {
    assert!(Error::PipelineNotReady.recoverable());
    assert!(Error::BindGroupPrepareFailed.recoverable());
    assert!(!Error::MissingPipeline("main".to_string()).recoverable());
    assert!(!Error::StagingBufferMissing(StagingTarget::Slot(0)).recoverable());
    assert!(!Error::StagingBufferMissing(StagingTarget::Image(0)).recoverable());
    assert!(!Error::MappingFailed.recoverable());
    assert!(!Error::ChannelFull.recoverable());
}

#[test]
fn main_plugin_is_set_up_once() {
    let mut app = ComputeApp::new();
    assert!(!app.is_main_plugin_added());
    assert!(MainComputePlugin.build(&mut app));
    assert!(app.is_main_plugin_added());
    assert!(!MainComputePlugin.build(&mut app));
    assert!(app.is_main_plugin_added());
}

#[test]
fn plugin_of_a_type_brings_the_main_plugin_and_a_channel() {
    let mut app = ComputeApp::new();
    let first = ComputePlugin::<Thing>::default().build(&mut app);
    assert!(first.main_plugin);
    assert!(app.is_main_plugin_added());
    assert_eq!(first.sender.0.capacity(), Some(2));
    assert!(first.receiver.receive().is_none());
    let second = ComputePlugin::<Thing>::default().build(&mut app);
    assert!(!second.main_plugin);
}

#[test]
fn worker_plugin_brings_the_main_plugin_and_the_default_limit() {
    let mut app = ComputeApp::new();
    let (limit, main_plugin) = ComputeWorkerPlugin::<Thing>::default().build(&mut app);
    assert_eq!(limit.count, 5);
    assert!(main_plugin);
    let (_, again) = ComputeWorkerPlugin::<Thing>::default().build(&mut app);
    assert!(!again);
}
