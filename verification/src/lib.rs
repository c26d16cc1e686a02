//! A call bridge between a scripting host and a native worker that share
//! only a fixed block of memory and a one-byte signal channel.
//!
//! The crate provides the dynamically typed value model that crosses the
//! boundary ([`Value`]), the binary codec that moves values through a
//! fixed-capacity buffer ([`Buffer`]), and the dual-channel call-bridge
//! protocol ([`Context`], [`Module`], [`Executor`]) that lets either side
//! synchronously invoke a named function on the other side.
//!
//! The embedder owns the threads, the externally owned memory regions and
//! the signal bytes; this crate owns every decision in between: how values
//! are encoded and decoded, how calls are queued and dispatched, and how a
//! nested native-to-host call suspends and resumes its handler.

pub mod bridge;
pub mod buffer;
pub mod error;
pub mod value;

pub use crate::bridge::Context;
pub use crate::bridge::Executor;
pub use crate::bridge::ExecutorStatus;
pub use crate::bridge::Module;
pub use crate::bridge::Step;
pub use crate::buffer::Buffer;
pub use crate::error::Error;
pub use crate::value::Value;
