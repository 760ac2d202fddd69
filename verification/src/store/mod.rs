//! The vector-store schema and the logic around store queries: point IDs,
//! site statistics and activity buckets.
//!
//! Talking to the store is done by the application; it hands the library the
//! plain values it read.
pub mod schema;
pub mod stats;
pub mod report;
pub mod scan;
