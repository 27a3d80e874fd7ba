//! Cirrus: the verified core of a local object-storage service.

pub mod blob;
pub mod clock;
pub mod digest;
pub mod message;
pub mod number_laws;
pub mod numbers;
pub mod order;
pub mod percent;
pub mod percent_laws;
pub mod protocol;
pub mod router;
pub mod s3;
pub mod string_map;
pub mod table;
pub mod text;
pub mod text_laws;
