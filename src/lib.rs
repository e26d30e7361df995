//! In-memory builder for Unreal Engine IO Store containers: it merges mod file
//! trees, inspects IO packages and lays out a table of contents, a container
//! header and the map of the virtual content stream.

pub mod bytes;
pub mod string;
pub mod text;
pub mod tree;
pub mod io_toc;
pub mod metadata;
pub mod package;
pub mod container;
pub mod toc_factory;
pub mod asset_collector;
