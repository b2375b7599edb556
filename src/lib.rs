//! Turns a multi-page PDF into one raster image per page, kept in a cache
//! directory beside the document and delivered page by page in order.
//!
//! The library holds the decisions: where the cache lives, which files in it
//! count as rendered pages, what the rasterizer is asked to do, and the state
//! machine that sequences a run. The host performs the file and process work
//! that each action names and reports back with an event.
pub mod text;
pub mod error;
pub mod paths;
pub mod rasterizer;
pub mod cache;
pub mod pipeline;
pub mod laws;
pub mod world;
pub mod commands;
