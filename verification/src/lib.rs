//! Engine-independent core of a GPU compute dispatch and readback pipeline.
//!
//! The crate decides *what* has to happen for a compute job: which passes are
//! valid, which pipelines they bind, which commands are recorded, how large
//! the staging buffers are, how padded image rows are unpacked, and when a
//! failed job is retried.  Talking to the device is left to the caller, who
//! performs the recorded commands and hands the mapped bytes back.

pub mod channel;
pub mod error;
pub mod events;
pub mod extract;
pub mod node;
pub mod pipeline_cache;
pub mod plugin;
pub mod prepare;
pub mod readback;
pub mod resources;
pub mod setup;
pub mod traits;

pub use channel::{
    create_compute_channels, listen_receiver, mark_shader_modified, read_and_send,
    ComputeMessage, ComputeReceiver, ComputeSender,
};
pub use error::Error;
pub use events::{
    shader_modified, ComputeComplete, ComputeEvent, ComputeShaderModified, Pass,
    RequeueComputeEvent, Workgroups,
};
pub use extract::extract_resource;
pub use node::ComputeNode;
pub use plugin::{ComputeRetryLimit, ComputeWorker};
pub use prepare::prepare_bind_group;
pub use setup::{ComputePlugin, ComputeWorkerPlugin, MainComputePlugin};
pub use resources::{BufferDimensions, ComputePipeline, PreparedCompute, RenderComputePasses};
pub use traits::{ComputeShader, ComputeTrait};
