//! A small framed file-serving protocol: request decoding, path sanitizing,
//! extension dispatch and response framing.
pub mod codec;
pub mod path;
pub mod response;
pub mod reader;
pub mod request;
