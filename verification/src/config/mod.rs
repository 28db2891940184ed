//! Server configuration: the sections of the feature configuration, their
//! defaults, and the checks a loaded configuration must pass.

pub mod chunk;
pub mod features;
pub mod basic;
