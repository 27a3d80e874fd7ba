//! The wire protocol: errors, shared types and XML text.

pub mod error;
pub mod error_laws;
pub mod escape_laws;
pub mod markup;
pub mod markup_laws;
pub mod types;
pub mod xml;
pub mod xml_laws;
