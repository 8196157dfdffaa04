//! A guest-side toolkit for writing one stage of a streaming
//! document-transformation pipeline that runs inside an isolated module.
//!
//! The host drives a stage by calling a single entry point once per
//! requested document.  Documents travel across the isolation boundary as
//! length-prefixed binary records; a stage answers each call with one of
//! three instructions: a document is ready, more input is needed, or the
//! stream is finished.

pub mod codec;
pub mod document;
pub mod exchange;
pub mod harness;
pub mod runner;
pub mod stage;
pub mod stages;
