//! Path layout, manifest merging and source generation for the Worldsong
//! hot-reloading game framework, with their contracts proved by Verus.

pub mod path;
pub mod text;
pub mod manifest;
pub mod hierarchy;
pub mod toml_text;
pub mod state_source;
pub mod processes;
pub mod tooling;
