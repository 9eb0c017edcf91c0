//! Event bridge between an interactive editor front-end and an external
//! controller process: a line-oriented envelope codec, a shared state store
//! with its dispatcher transition function, a per-process serial counter for
//! outbound commands, and the one-shot latch that guards dispatcher
//! installation.

pub mod app;
pub mod chars;
pub mod codec;
pub mod escape;
pub mod event;
pub mod glue;
pub mod models;
pub mod numbers;
