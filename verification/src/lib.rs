//! A telemetry recorder library: it classifies topic-tagged messages arriving
//! from a publish/subscribe bus, infers or resolves a schema for each topic,
//! and appends every message as a sequenced, timestamped record into an
//! append-only binary container, gated by a control-topic state machine.

pub mod textutil;
pub mod config;
pub mod value;
pub mod schema;
pub mod encoding;
pub mod ext;
pub mod container;
pub mod recorder;
