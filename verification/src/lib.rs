//! Embedded ICC colour-profile extraction from JPEG and PNG byte streams,
//! ICC tag-table reading, and the bookkeeping of a small image-analysis
//! service (bounded image store, request decisions, colour formatting).

pub mod bytes;
pub mod decode;
pub mod description;
pub mod format;
pub mod jpeg;
pub mod jpeg_laws;
pub mod key_order;
pub mod png;
pub mod png_laws;
pub mod profile;
pub mod requests;
pub mod service;
pub mod store;
pub mod text;
