//! Dominant-color extraction: exact integer color metrics, the pixel
//! exclusion filter, palette post-processing, the batch scan's file
//! selection, the shared progress state of a batch run, the layout of the
//! extracted colors as styled text, and the result browser's decisions.

pub mod color;
pub mod image;
pub mod palette;
pub mod image_file;
pub mod scan;
pub mod batch;
pub mod canvas;
pub mod browse;
