//! Build orchestration for trees of native-code packages: feature
//! resolution, dependency graph construction, conditional source
//! selection, toolchain command synthesis and entry-point generation.

pub mod compiler;
pub mod config;
pub mod features;
pub mod leaf;
pub mod synth;
pub mod text;
