//! A fix for the observer camera of Counter-Strike 2 under the autodirector.
//!
//! The game's client module overrides the observer's view in a short block of code. The library
//! finds that block ([`autodirector_signature`], in a file through [`image`] and [`report`], in a
//! loaded module through [`module_scan`]), assembles a trampoline that takes its place
//! ([`trampoline`]), and decides the course of events around the patch ([`runtime`],
//! [`patching`]). Which camera types keep the override is configured in a file ([`config`]). What
//! the assembled code does when it runs is proved in [`execution`], over the model of the
//! processor in [`machine`].
pub mod autodirector_signature;
pub mod bytes;
pub mod config;
pub mod execution;
pub mod image;
pub mod machine;
pub mod module_scan;
pub mod patching;
pub mod pattern;
pub mod report;
pub mod runtime;
pub mod text;
pub mod trampoline;
