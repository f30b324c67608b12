//! Wire-format layer of an embedded motion-controller stack: a bounded
//! append-only byte sink, a little-endian binary serializer with a
//! configurable length-prefix width, and the command/telemetry schema
//! that travels through it.

pub mod commands;
pub mod deser;
