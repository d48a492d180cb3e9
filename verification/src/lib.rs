//! The core of a VCD waveform viewer: wave data, its text forms, and the
//! decisions of the viewer windows, with contracts proved by Verus.
pub mod client;
pub mod code;
pub mod manager;
pub mod radix;
pub mod rvcd;
pub mod service;
pub mod size;
pub mod text;
pub mod tree_view;
pub mod verilog;
pub mod view;
pub mod wave;
pub mod windows;
