//! Multi-producer, multi-consumer channels in three flavors: bounded (a ring of
//! slots), unbounded (a chain of fixed-size blocks) and rendezvous (capacity zero).
pub mod array;
pub mod context;
pub mod counter;
pub mod endpoint;
pub mod errors;
pub mod laws;
pub mod list;
pub mod select;
mod sync;
pub mod utils;
pub mod waker;
pub mod zero;

pub use endpoint::{channel, sync_channel, Kind, Receiver, Sender};
pub use errors::{
    RecvError, RecvTimeoutError, SendError, SendTimeoutError, TryRecvError, TrySendError,
};
