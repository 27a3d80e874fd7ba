//! The S3 service: addressing, storage, request handling.

pub mod address;
pub mod address_laws;
pub mod answers;
pub mod batch_laws;
pub mod bucket;
pub mod bucket_laws;
pub mod copy_source;
pub mod handlers;
pub mod laws;
pub mod listing;
pub mod listing_laws;
pub mod memory;
pub mod model;
pub mod multipart;
pub mod multipart_laws;
pub mod object_laws;
pub mod paging_laws;
pub mod parts;
pub mod query;
pub mod request_laws;
pub mod service;
pub mod service_laws;
pub mod storage;
pub mod wire_laws;
