//! Flock: the bookkeeping of a parallel runner for asynchronous tasks.
//!
//! Tasks (actors) are spread over a fixed number of worker threads and fed by
//! one central event loop. This crate holds the logic of that runner: the
//! event and command types, the topic boards that route events to listeners,
//! and the decisions the central loop and the workers take. The threads,
//! channels and the host event loop live around it.
mod outside;

pub mod event;
pub mod actor;
pub mod board;
pub mod broker;
pub mod pubsub;
pub mod worker;
pub mod central;
pub mod turbine;
