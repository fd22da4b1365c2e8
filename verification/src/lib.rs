//! `translator-core`: realtime system-audio subtitle engine.

pub mod asr;
pub mod audio;
pub mod error;
pub mod ipc;
pub mod protocol;
pub mod session;
pub mod subtitle;
pub mod text;
pub mod translation;
pub mod vad;

use vstd::prelude::*;

verus! {

/// The version that the core reports.
pub const VERSION: &'static str = "0.1.0";

} // verus!
