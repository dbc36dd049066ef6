//! Sentence segmentation, chunk merging and text extraction for building
//! embedding maps of web pages, together with the small state machines that
//! drive the progress display and the map viewer.
pub mod dashboard;
pub mod demo;
pub mod pipeline;
pub mod scraper;
pub mod segmentation;
pub mod segmenter;
pub mod telemetry;
pub mod text;
pub mod whitespace;

pub use pipeline::Pipeline;
