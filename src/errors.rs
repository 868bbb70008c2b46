//! Failure values surfaced to the callers of channel operations.
//!
//! Every failure that happens before a message was committed hands the message
//! back, so that the caller can recover it.
use vstd::prelude::*;

verus! {

/// Failure of a send with a deadline: the message comes back in both cases.
#[derive(PartialEq, Eq, Clone, Copy, Debug)]
pub enum SendTimeoutError<T> {
    /// The deadline passed before the message could be placed.
    Timeout(T),
    /// Every receiver is gone.
    Disconnected(T),
}

/// Failure of a blocking send: every receiver is gone.
#[derive(PartialEq, Eq, Clone, Copy, Debug)]
pub struct SendError<T>(pub T);

/// Failure of a non-blocking send: the message comes back in both cases.
#[derive(PartialEq, Eq, Clone, Copy, Debug)]
pub enum TrySendError<T> {
    /// No room for the message right now (for a rendezvous channel: no receiver waits).
    Full(T),
    /// Every receiver is gone.
    Disconnected(T),
}

/// Failure of a blocking receive: the channel is empty and every sender is gone.
#[derive(PartialEq, Eq, Clone, Copy, Debug)]
pub struct RecvError;

/// Failure of a non-blocking receive.
#[derive(PartialEq, Eq, Clone, Copy, Debug)]
pub enum TryRecvError {
    /// No message is available right now.
    Empty,
    /// The channel is empty and every sender is gone.
    Disconnected,
}

/// Failure of a receive with a deadline.
#[derive(PartialEq, Eq, Clone, Copy, Debug)]
pub enum RecvTimeoutError {
    /// The deadline passed before a message arrived.
    Timeout,
    /// The channel is empty and every sender is gone.
    Disconnected,
}

impl<T> SendTimeoutError<T> {
    /// The message that could not be sent.
    pub open spec fn spec_message(self) -> T {
        match self {
            SendTimeoutError::Timeout(m) => m,
            SendTimeoutError::Disconnected(m) => m,
        }
    }

    /// Gives the message back.
    pub fn into_inner(self) -> (r: T)
        ensures
            r == self.spec_message(),
    {
        match self {
            SendTimeoutError::Timeout(m) => m,
            SendTimeoutError::Disconnected(m) => m,
        }
    }

    /// A short text that says what went wrong.
    pub fn description(&self) -> (r: &'static str)
        ensures
            self is Timeout ==> r@ == "timed out waiting on send operation"@,
            self is Disconnected ==> r@ == "sending on a disconnected channel"@,
    {
        match self {
            SendTimeoutError::Timeout(..) => "timed out waiting on send operation",
            SendTimeoutError::Disconnected(..) => "sending on a disconnected channel",
        }
    }
}

impl<T> SendError<T> {
    /// A short text that says what went wrong.
    pub fn description(&self) -> (r: &'static str)
        ensures
            r@ == "sending on a closed channel"@,
    {
        "sending on a closed channel"
    }
}

impl<T> TrySendError<T> {
    /// The message that could not be sent.
    pub open spec fn spec_message(self) -> T {
        match self {
            TrySendError::Full(m) => m,
            TrySendError::Disconnected(m) => m,
        }
    }

    /// Gives the message back.
    pub fn into_inner(self) -> (r: T)
        ensures
            r == self.spec_message(),
    {
        match self {
            TrySendError::Full(m) => m,
            TrySendError::Disconnected(m) => m,
        }
    }

    /// A short text that says what went wrong.
    pub fn description(&self) -> (r: &'static str)
        ensures
            self is Full ==> r@ == "sending on a full channel"@,
            self is Disconnected ==> r@ == "sending on a closed channel"@,
    {
        match self {
            TrySendError::Full(..) => "sending on a full channel",
            TrySendError::Disconnected(..) => "sending on a closed channel",
        }
    }
}

impl RecvError {
    /// A short text that says what went wrong.
    pub fn description(&self) -> (r: &'static str)
        ensures
            r@ == "receiving on a closed channel"@,
    {
        "receiving on a closed channel"
    }
}

impl TryRecvError {
    /// A short text that says what went wrong.
    pub fn description(&self) -> (r: &'static str)
        ensures
            *self is Empty ==> r@ == "receiving on an empty channel"@,
            *self is Disconnected ==> r@ == "receiving on a closed channel"@,
    {
        match self {
            TryRecvError::Empty => "receiving on an empty channel",
            TryRecvError::Disconnected => "receiving on a closed channel",
        }
    }
}

impl RecvTimeoutError {
    /// A short text that says what went wrong.
    pub fn description(&self) -> (r: &'static str)
        ensures
            *self is Timeout ==> r@ == "timed out waiting on channel"@,
            *self is Disconnected ==> r@ == "channel is empty and sending half is closed"@,
    {
        match self {
            RecvTimeoutError::Timeout => "timed out waiting on channel",
            RecvTimeoutError::Disconnected => "channel is empty and sending half is closed",
        }
    }
}

impl<T> From<SendError<T>> for SendTimeoutError<T> {
    fn from(err: SendError<T>) -> (r: SendTimeoutError<T>) {
        SendTimeoutError::Disconnected(err.0)
    }
}

impl<T> vstd::std_specs::convert::FromSpecImpl<SendError<T>> for SendTimeoutError<T> {
    open spec fn obeys_from_spec() -> bool {
        true
    }

    open spec fn from_spec(err: SendError<T>) -> SendTimeoutError<T> {
        SendTimeoutError::Disconnected(err.0)
    }
}

impl<T> From<SendError<T>> for TrySendError<T> {
    fn from(err: SendError<T>) -> (r: TrySendError<T>) {
        TrySendError::Disconnected(err.0)
    }
}

impl<T> vstd::std_specs::convert::FromSpecImpl<SendError<T>> for TrySendError<T> {
    open spec fn obeys_from_spec() -> bool {
        true
    }

    open spec fn from_spec(err: SendError<T>) -> TrySendError<T> {
        TrySendError::Disconnected(err.0)
    }
}

impl From<RecvError> for TryRecvError {
    fn from(err: RecvError) -> (r: TryRecvError) {
        TryRecvError::Disconnected
    }
}

impl vstd::std_specs::convert::FromSpecImpl<RecvError> for TryRecvError {
    open spec fn obeys_from_spec() -> bool {
        true
    }

    open spec fn from_spec(err: RecvError) -> TryRecvError {
        TryRecvError::Disconnected
    }
}

impl From<RecvError> for RecvTimeoutError {
    fn from(err: RecvError) -> (r: RecvTimeoutError) {
        RecvTimeoutError::Disconnected
    }
}

impl vstd::std_specs::convert::FromSpecImpl<RecvError> for RecvTimeoutError {
    open spec fn obeys_from_spec() -> bool {
        true
    }

    open spec fn from_spec(err: RecvError) -> RecvTimeoutError {
        RecvTimeoutError::Disconnected
    }
}

} // verus!
