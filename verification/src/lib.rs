//! A memory trace collector: allocation events go into per-thread bounded
//! buffers, are drained into an aggregator keyed by interned stack traces, and
//! come out as snapshots that can be compared, streamed and exported.

pub mod aggregator;
pub mod aggregator_laws;
pub mod allocation_index;
pub mod arith;
pub mod config;
pub mod event;
pub mod export;
mod frame_index;
pub mod frames;
mod hash_index;
pub mod key_table;
pub mod native;
pub mod options;
pub mod origin;
pub mod profile_laws;
mod ranking;
pub mod ring_buffer;
pub mod sampling;
pub mod shim;
pub mod snapshot;
pub mod stack;
pub mod stack_capture;
pub mod stack_laws;
pub mod state;
pub mod stream;
mod text;
pub mod tracer_laws;
pub mod tracer_view;

pub use aggregator::{Aggregator, AllocationStats};
pub use config::{TracerConfig, SAMPLING_RATE_ONE};
pub use event::{AllocationEvent, EventKind, StackId};
pub use export::{build_pprof_profile, Function, Line, Location, Profile, ProfileTables, Sample, ValueType};
pub use frames::{clone_frames, same_frames, FrameMetadata};
pub use ring_buffer::{DrainAction, ThreadBuffer};
pub use snapshot::{Snapshot, SnapshotDelta, SnapshotRecord};
pub use stack::{StackMetadata, StackTable};
pub use stack_capture::StackCollector;
pub use state::{Surroundings, Tracer, TracerBuilder, WorkerAction};
pub use options::{
    parse_exporters, parse_sampling, ArgumentError, ExportersArgument, SamplingArgument,
    SamplingOptions, StartOptions,
};
pub use shim::{frame_metadata, FrameWalk, Recording, ReentryGuard, ShimState};
pub use stream::{line_of, JsonLinesWriter, MmapJsonStreamWriter, StreamChunk, StreamError};
