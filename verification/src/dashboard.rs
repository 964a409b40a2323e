//! The live dashboard's logic: activity filtering, scrolling and word
//! wrapping, diff detection, milestone naming, panel text, and the
//! transcript view. Drawing on the terminal stays with the caller.
pub mod filter;
pub mod event_loop;
pub mod render;
pub mod highlight;
pub mod milestone;
pub mod panels;
pub mod transcript;
pub mod summary;
