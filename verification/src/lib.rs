//! Core of an embedded text-to-speech backend: a heap-emulation layer for the
//! foreign synthesis engine, a cancellation coordinator serializing requests,
//! an audio relay that packages samples into frames for a subscriber, and the
//! request-server and worker-task decision logic around them.

pub mod diag;
pub mod heap;
pub mod coordinator;
pub mod relay;
pub mod server;
pub mod session;
