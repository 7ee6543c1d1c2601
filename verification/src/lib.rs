//! Verified core of a Prometheus metrics exporter: metric handles, native
//! histogram bucket spans, and the Prometheus protobuf exposition encoding.

pub mod buckets;
pub mod float_bits;
pub mod formatting;
pub mod handles;
pub mod pb;
pub mod protobuf;
pub mod registry;
pub mod wire;
