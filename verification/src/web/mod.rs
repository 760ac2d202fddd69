//! The logic behind the HTTP API: parameter defaults and bounds, the
//! response envelope, the multipart upload form, the ingest status that the
//! API reports, and the decisions of the progress websocket.
//!
//! Serving HTTP is done by the application.
pub mod common;
pub mod params;
pub mod upload;
pub mod status;
pub mod ws;
