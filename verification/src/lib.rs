//! A minimal HTTP file-server core: request-line decoding, safe path
//! resolution beneath a server root, target classification, and response
//! serialization.

pub mod bytesutil;
pub mod codec;
pub mod paths;
pub mod listing;
pub mod request;
pub mod response;
