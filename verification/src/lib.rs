//! Fixed-layout multi-view video mixing.
//!
//! The crate holds the logic of a small production switcher: a fixed grid of
//! inputs, the composition of the captured frames into one picture, the book
//! keeping of cameras and sources, and the preparation of frames for recording.
//! Devices, threads and files are driven from outside; every decision about
//! them is taken here.

pub mod camera;
pub mod capture;
pub mod laws;
pub mod layout;
pub mod recorder;
pub mod renderer;
pub mod source;
pub mod targets;
pub mod text;
pub mod yuv;
