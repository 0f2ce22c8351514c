//! A verified core for a plugin-based image processor: the pixel-buffer
//! layout contract, the box-blur and mirror filter algorithms, the
//! `key=value` parameter mini-language, the plugin entry-point validation
//! logic, and the host-side argument checks.
//!
//! Loading the dynamic libraries, decoding and encoding image files and all
//! other I/O live outside this crate; they hand the functions here plain
//! values and take plain values back.

pub mod args;
pub mod blur;
pub mod entry;
pub mod mirror;
pub mod params;
pub mod pixel;
pub mod text;
pub mod validation;
