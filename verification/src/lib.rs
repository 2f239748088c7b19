//! A fast downloader of content over HTTP: the options, the choice of a
//! download strategy, the division of the content into chunks, the
//! reassembly of chunks that arrive out of order, and the decisions that a
//! download task takes on the answers of the server.

pub mod command_line;
pub mod program;
pub mod download;
pub mod chunks;
pub mod headers;
