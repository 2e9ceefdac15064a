//! Verified core of an NDI client: which monitor shows which NDI source,
//! and the decisions the renderer and the receiver loop take on top of it.

pub mod config;
pub mod ndi;
pub mod renderer;
pub mod source_selector;
pub mod tables;
