//! Scheduler core of a single-threaded coroutine runtime over an
//! edge-triggered readiness reactor.
//!
//! The crate holds the bookkeeping and the decisions: which coroutine owns
//! which source, which sources are armed and with what interest, and what a
//! ready event or a message does to the state. Suspending and resuming
//! execution, and talking to the reactor, are left to the embedding program,
//! which carries out the [`ReactorOp`]s that the core hands back.

pub mod event;
pub mod mask;
pub mod interest;
pub mod source;
pub mod slab;
pub mod coroutine;
pub mod server;
pub mod handle;
pub mod laws;

pub use event::{EventSourceIndex, LastEvent, State, RW};
pub use mask::{select_impl_set_mask_from_indices, select_impl_set_mask_rc_handles};
pub use source::{EventSourceShared, ReactorOp, SourceKind};
pub use coroutine::Coroutine;
pub use server::{Maintenance, Server, ServerView, WrapError};
pub use handle::{EventSource, MiocoHandle, Sender, TypedEventSource};
