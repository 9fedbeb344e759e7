//! The logic of the vasu toolkit: its embedded static file server (request
//! parsing, percent decoding, path resolution, directory listings and
//! response serialisation, all on bytes, with the socket and the filesystem
//! left to the caller) and the wildcard name matching used by `find`.
pub mod bytes;
pub mod glob;
pub mod listing;
pub mod mime;
pub mod percent;
pub mod request;
pub mod response;
pub mod server;
