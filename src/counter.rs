//! The body shared by every endpoint of one channel: the flavor's state and
//! the number of live senders and receivers. When one side's count reaches
//! zero the channel is disconnected.
//!
//! Blocking operations are driven by `SendOp` and `RecvOp`: each look at the
//! body (`poll_send`, `poll_recv`) either finishes the operation or leaves it
//! waiting, and `abort_send` / `abort_recv` finish it when its deadline passes.
use vstd::prelude::*;
use crate::array;
use crate::errors::{RecvTimeoutError, SendTimeoutError, TryRecvError, TrySendError};
use crate::list;
use crate::select::Operation;
use crate::waker::SyncWaker;
use crate::zero;

verus! {

/// Identity given to a caller that owns no registered operation: every
/// registered operation's owner is its id, which is above 2.
pub const NO_OWNER: usize = 0;

/// The flavor-specific state of a channel.
pub enum Flavor<T> {
    Array(array::Channel<T>),
    List(list::Channel<T>),
    Zero(zero::Channel<T>),
}

/// Progress of a blocking send.
pub enum SendOp<T> {
    /// The message is still with the caller.
    Pending(T),
    /// The message waits in the packet of registered operation (rendezvous).
    Registered(Operation),
    /// Finished, with its outcome.
    Done(Result<(), SendTimeoutError<T>>),
}

/// Progress of a blocking receive.
pub enum RecvOp<T> {
    /// Nothing registered yet.
    Pending,
    /// Waiting in the registry under this operation (rendezvous).
    Registered(Operation),
    /// Finished, with its outcome.
    Done(Result<T, RecvTimeoutError>),
}

impl<T> SendOp<T> {
    /// Whether the operation still waits.
    pub fn is_waiting(&self) -> (r: bool)
        ensures
            r == !(*self is Done),
    {
        match self {
            SendOp::Done(_) => false,
            _ => true,
        }
    }

    /// The outcome of a finished operation.
    pub fn into_result(self) -> (r: Result<(), SendTimeoutError<T>>)
        requires
            self is Done,
        ensures
            self matches SendOp::Done(x) ==> r == x,
    {
        match self {
            SendOp::Done(x) => x,
            SendOp::Pending(m) => Err(SendTimeoutError::Timeout(m)),
            SendOp::Registered(_) => Ok(()),
        }
    }
}

impl<T> RecvOp<T> {
    /// Whether the operation still waits.
    pub fn is_waiting(&self) -> (r: bool)
        ensures
            r == !(*self is Done),
    {
        match self {
            RecvOp::Done(_) => false,
            _ => true,
        }
    }

    /// The outcome of a finished operation.
    pub fn into_result(self) -> (r: Result<T, RecvTimeoutError>)
        requires
            self is Done,
        ensures
            self matches RecvOp::Done(x) ==> r == x,
    {
        match self {
            RecvOp::Done(x) => x,
            _ => Err(RecvTimeoutError::Timeout),
        }
    }
}

/// `post` is the same kind of channel as `pre`, with the same capacity and
/// the same connection state.
pub open spec fn same_shape<T>(pre: Flavor<T>, post: Flavor<T>) -> bool {
    &&& same_kind(pre, post)
    &&& post.disconnected() == pre.disconnected()
}

/// `post` is the same kind of channel as `pre`, with the same capacity.
pub open spec fn same_kind<T>(pre: Flavor<T>, post: Flavor<T>) -> bool {
    &&& pre matches Flavor::Array(a) ==> (post matches Flavor::Array(b) && b.cap() == a.cap())
    &&& (pre is Array <==> post is Array)
    &&& (pre is List <==> post is List)
    &&& (pre is Zero <==> post is Zero)
    &&& post.spec_capacity() == pre.spec_capacity()
}

/// What a non-blocking send does: the message comes back on failure; on a
/// rendezvous channel it goes to the first waiting receive, and fails with
/// `Full` (or `Disconnected`) when none waits; on a buffered channel it is
/// refused when disconnected, appended when there is room, and refused as
/// `Full` otherwise, leaving the messages as they were.
pub open spec fn sent<T>(pre: Flavor<T>, post: Flavor<T>, msg: T, r: Result<(), TrySendError<T>>) -> bool {
    &&& same_shape(pre, post)
    &&& r matches Err(e) ==> e.spec_message() == msg
    &&& pre matches Flavor::Zero(z) ==> (post matches Flavor::Zero(z2) && zero::sent_to_receiver(
        z,
        z2,
        msg,
        NO_OWNER,
        r,
    ))
    &&& !(pre is Zero) ==> {
        &&& pre.disconnected() ==> r == Err::<(), _>(TrySendError::Disconnected(msg))
            && post.messages() == pre.messages()
        &&& !pre.disconnected() && pre.has_room() ==> r is Ok && post.messages() == pre.messages().push(msg)
        &&& !pre.disconnected() && !pre.has_room() ==> r == Err::<(), _>(TrySendError::Full(msg))
            && post.messages() == pre.messages()
    }
}

/// What a non-blocking receive does: on a rendezvous channel it takes the
/// message of the first waiting send, and fails with `Empty` (or
/// `Disconnected`) when none waits; on a buffered channel the oldest message
/// is taken, and without one it fails with `Disconnected` or `Empty`.
pub open spec fn received<T>(pre: Flavor<T>, post: Flavor<T>, r: Result<T, TryRecvError>) -> bool {
    &&& same_shape(pre, post)
    &&& pre matches Flavor::Zero(z) ==> (post matches Flavor::Zero(z2) && zero::taken_from_sender(
        z,
        z2,
        NO_OWNER,
        r,
    ))
    &&& !(pre is Zero) ==> {
        &&& pre.messages().len() > 0 ==> r == Ok::<T, TryRecvError>(pre.messages()[0])
            && post.messages() == pre.messages().drop_first()
        &&& pre.messages().len() == 0 ==> post.messages() == pre.messages() && r == Err::<T, TryRecvError>(
            if pre.disconnected() {
                TryRecvError::Disconnected
            } else {
                TryRecvError::Empty
            },
        )
    }
}

/// The registries and packets of two rendezvous bodies agree.
pub open spec fn same_rendezvous<T>(a: zero::Channel<T>, b: zero::Channel<T>) -> bool {
    &&& b.senders() == a.senders()
    &&& b.receivers() == a.receivers()
    &&& b.packets() == a.packets()
    &&& b.disconnected() == a.disconnected()
}

/// One look for a blocking send on a rendezvous channel. A pending send goes
/// to a waiting receive when there is one; else, on a disconnected channel,
/// it finishes with its message back; else it registers under a fresh id,
/// its packet holding the message (it stays pending only when there are too
/// many packets for a free id to be sure to exist).
/// A registered send finishes as `zero::Channel::poll_send` says.
pub open spec fn zero_send_polled<T>(z: zero::Channel<T>, z2: zero::Channel<T>, op: SendOp<T>, next: SendOp<T>) -> bool {
    match op {
        SendOp::Pending(m) => {
            &&& z.receiver_waits(NO_OWNER) ==> next == SendOp::<T>::Done(Ok(()))
                && zero::sent_to_receiver(z, z2, m, NO_OWNER, Ok(()))
            &&& !z.receiver_waits(NO_OWNER) && z.disconnected() ==> next == SendOp::Done(
                Err::<(), _>(SendTimeoutError::Disconnected(m)),
            ) && same_rendezvous(z, z2)
            &&& !z.receiver_waits(NO_OWNER) && !z.disconnected() && z.has_free_id() ==> (
            next matches SendOp::Registered(o) && o.0 > 2 && zero::send_registered(z, z2, o, m))
            &&& !z.receiver_waits(NO_OWNER) && !z.disconnected() && !z.has_free_id() ==> next
                == SendOp::Pending(m) && same_rendezvous(z, z2)
        },
        SendOp::Registered(o) => (next matches SendOp::Done(x) && zero::send_looked_at(z, z2, o, Some(x)))
            || (next == SendOp::<T>::Registered(o) && zero::send_looked_at(z, z2, o, None)),
        SendOp::Done(_) => next == op && z2 == z,
    }
}

/// One look for a blocking send: a finished operation stays as it is; on a
/// rendezvous channel as `zero_send_polled` says; a pending one on a
/// buffered channel behaves as a non-blocking send that keeps waiting
/// instead of failing with `Full`.
pub open spec fn send_polled<T>(pre: Flavor<T>, post: Flavor<T>, op: SendOp<T>, next: SendOp<T>) -> bool {
    &&& same_shape(pre, post)
    &&& op is Done ==> next == op && post == pre
    &&& pre matches Flavor::Zero(z) ==> (post matches Flavor::Zero(z2) && zero_send_polled(z, z2, op, next))
    &&& !(pre is Zero) ==> (op matches SendOp::Pending(m) ==> {
        &&& pre.disconnected() ==> next == SendOp::Done(Err::<(), _>(SendTimeoutError::Disconnected(m)))
            && post.messages() == pre.messages()
        &&& !pre.disconnected() && pre.has_room() ==> next == SendOp::<T>::Done(Ok(()))
            && post.messages() == pre.messages().push(m)
        &&& !pre.disconnected() && !pre.has_room() ==> next == SendOp::Pending(m)
            && post.messages() == pre.messages()
    })
}

/// A send that started with message `m` and never registered: still
/// pending with `m`, sent, or finished with `m` back as `Disconnected`.
pub open spec fn send_kept<T>(m: T, op: SendOp<T>) -> bool {
    ||| op == SendOp::Pending(m)
    ||| op == SendOp::<T>::Done(Ok(()))
    ||| op == SendOp::Done(Err::<(), _>(SendTimeoutError::Disconnected(m)))
}

/// One look for a blocking send that never registers: on a buffered channel
/// as `send_polled` says; on a rendezvous channel the send goes to a waiting
/// receive when there is one, and otherwise finishes with its message on a
/// disconnected channel or stays pending.
pub open spec fn send_polled_in_place<T>(pre: Flavor<T>, post: Flavor<T>, op: SendOp<T>, next: SendOp<T>) -> bool {
    &&& same_shape(pre, post)
    &&& op is Done ==> next == op && post == pre
    &&& op is Registered ==> next == op && post == pre
    &&& op matches SendOp::Pending(m) ==> send_kept(m, next)
    &&& !(pre is Zero) ==> send_polled(pre, post, op, next)
    &&& pre matches Flavor::Zero(z) ==> (post matches Flavor::Zero(z2) && (op matches SendOp::Pending(m) ==> {
        &&& z.receiver_waits(NO_OWNER) ==> next == SendOp::<T>::Done(Ok(()))
            && zero::sent_to_receiver(z, z2, m, NO_OWNER, Ok(()))
        &&& !z.receiver_waits(NO_OWNER) ==> same_rendezvous(z, z2) && next == if z.disconnected() {
            SendOp::Done(Err::<(), _>(SendTimeoutError::Disconnected(m)))
        } else {
            SendOp::Pending(m)
        }
    }))
}

/// Finishing a blocking send at its deadline: a message still with the
/// caller comes back as `Timeout`, and nothing else changes; a send
/// registered on a rendezvous channel is withdrawn as
/// `zero::Channel::abort_send` says (`Ok` only if a receive took it).
pub open spec fn send_aborted<T>(pre: Flavor<T>, post: Flavor<T>, op: SendOp<T>, next: SendOp<T>) -> bool {
    &&& same_shape(pre, post)
    &&& next is Done
    &&& op is Done ==> next == op && post == pre
    &&& op matches SendOp::Pending(m) ==> next == SendOp::Done(Err::<(), _>(SendTimeoutError::Timeout(m)))
        && post == pre
    &&& (op is Registered && pre is Zero) ==> (post matches Flavor::Zero(z2) && next matches SendOp::Done(x)
        && zero::send_withdrawn(pre->Zero_0, z2, op->Registered_0, x))
}

/// One look for a blocking receive on a rendezvous channel. A pending
/// receive takes the message of a waiting send when there is one; else, on
/// a disconnected channel, it finishes with `Disconnected`; else it
/// registers under a fresh id with an empty packet (it stays pending only
/// when there are too many packets for a free id to be sure to exist). A registered receive finishes as
/// `zero::Channel::poll_recv` says.
pub open spec fn zero_recv_polled<T>(z: zero::Channel<T>, z2: zero::Channel<T>, op: RecvOp<T>, next: RecvOp<T>) -> bool {
    match op {
        RecvOp::Pending => {
            &&& z.sender_waits(NO_OWNER) ==> (next matches RecvOp::Done(Ok(m))
                && zero::taken_from_sender(z, z2, NO_OWNER, Ok(m)))
            &&& !z.sender_waits(NO_OWNER) && z.disconnected() ==> next == RecvOp::<T>::Done(
                Err(RecvTimeoutError::Disconnected),
            ) && same_rendezvous(z, z2)
            &&& !z.sender_waits(NO_OWNER) && !z.disconnected() && z.has_free_id() ==> (
            next matches RecvOp::Registered(o) && o.0 > 2 && zero::recv_registered(z, z2, o))
            &&& !z.sender_waits(NO_OWNER) && !z.disconnected() && !z.has_free_id() ==> next
                == RecvOp::<T>::Pending && same_rendezvous(z, z2)
        },
        RecvOp::Registered(o) => (next matches RecvOp::Done(x) && zero::recv_looked_at(z, z2, o, Some(x)))
            || (next == RecvOp::<T>::Registered(o) && zero::recv_looked_at(z, z2, o, None)),
        RecvOp::Done(_) => next == op && z2 == z,
    }
}

/// One look for a blocking receive: a finished operation stays as it is; on
/// a rendezvous channel as `zero_recv_polled` says; a pending one on a
/// buffered channel behaves as a non-blocking receive that keeps waiting
/// instead of failing with `Empty`.
pub open spec fn recv_polled<T>(pre: Flavor<T>, post: Flavor<T>, op: RecvOp<T>, next: RecvOp<T>) -> bool {
    &&& same_shape(pre, post)
    &&& op is Done ==> next == op && post == pre
    &&& pre matches Flavor::Zero(z) ==> (post matches Flavor::Zero(z2) && zero_recv_polled(z, z2, op, next))
    &&& !(pre is Zero) && op is Pending ==> {
        &&& pre.messages().len() > 0 ==> next == RecvOp::Done(Ok::<T, RecvTimeoutError>(pre.messages()[0]))
            && post.messages() == pre.messages().drop_first()
        &&& pre.messages().len() == 0 && pre.disconnected() ==> next == RecvOp::<T>::Done(
            Err(RecvTimeoutError::Disconnected),
        ) && post.messages() == pre.messages()
        &&& pre.messages().len() == 0 && !pre.disconnected() ==> next == RecvOp::<T>::Pending
            && post.messages() == pre.messages()
    }
}

/// Finishing a blocking receive at its deadline: a pending one times out and
/// nothing changes; one registered on a rendezvous channel is withdrawn as
/// `zero::Channel::abort_recv` says (the message, if a send filled the
/// packet meanwhile).
pub open spec fn recv_aborted<T>(pre: Flavor<T>, post: Flavor<T>, op: RecvOp<T>, next: RecvOp<T>) -> bool {
    &&& same_shape(pre, post)
    &&& next is Done
    &&& op is Done ==> next == op && post == pre
    &&& op is Pending ==> next == RecvOp::<T>::Done(Err(RecvTimeoutError::Timeout)) && post == pre
    &&& (op is Registered && pre is Zero) ==> (post matches Flavor::Zero(z2) && next matches RecvOp::Done(x)
        && zero::recv_withdrawn(pre->Zero_0, z2, op->Registered_0, x))
}

impl<T> Flavor<T> {
    pub open spec fn wf(&self) -> bool {
        match self {
            Flavor::Array(c) => c.wf(),
            Flavor::List(c) => c.wf(),
            Flavor::Zero(c) => c.wf(),
        }
    }

    /// The messages held (a rendezvous channel holds none).
    pub open spec fn messages(&self) -> Seq<T> {
        match self {
            Flavor::Array(c) => c.messages(),
            Flavor::List(c) => c.messages(),
            Flavor::Zero(c) => Seq::empty(),
        }
    }

    pub open spec fn disconnected(&self) -> bool {
        match self {
            Flavor::Array(c) => c.disconnected(),
            Flavor::List(c) => c.disconnected(),
            Flavor::Zero(c) => c.disconnected(),
        }
    }

    /// Whether a send now finds room: a free slot of the ring, or the chain
    /// below its limit. A rendezvous needs a waiting receiver instead.
    pub open spec fn has_room(&self) -> bool {
        match self {
            Flavor::Array(c) => c.messages().len() < c.cap(),
            Flavor::List(c) => !c.at_limit(),
            Flavor::Zero(c) => false,
        }
    }

    /// An empty, connected rendezvous body: also what stands in while the
    /// real one is being worked on.
    pub fn placeholder() -> (r: Flavor<T>)
        ensures
            r.wf(),
            r is Zero,
    {
        Flavor::Zero(zero::Channel::new())
    }

    /// Sends without blocking.
    pub fn try_send(&mut self, msg: T) -> (r: Result<(), TrySendError<T>>)
        requires
            old(self).wf(),
        ensures
            final(self).wf(),
            sent(*old(self), *final(self), msg, r),
    {
        let mut f = Flavor::placeholder();
        std::mem::swap(&mut f, self);
        match f {
            Flavor::Array(mut c) => {
                proof {
                    c.lemma_count_bounded();
                }
                let r = c.try_send(msg);
                *self = Flavor::Array(c);
                r
            },
            Flavor::List(mut c) => {
                let r = c.try_send(msg);
                *self = Flavor::List(c);
                r
            },
            Flavor::Zero(mut c) => {
                let r = c.try_send(msg, NO_OWNER);
                *self = Flavor::Zero(c);
                r
            },
        }
    }

    /// Receives without blocking.
    pub fn try_recv(&mut self) -> (r: Result<T, TryRecvError>)
        requires
            old(self).wf(),
        ensures
            final(self).wf(),
            received(*old(self), *final(self), r),
    {
        let mut f = Flavor::placeholder();
        std::mem::swap(&mut f, self);
        match f {
            Flavor::Array(mut c) => {
                let r = c.try_recv();
                *self = Flavor::Array(c);
                r
            },
            Flavor::List(mut c) => {
                let r = c.try_recv();
                *self = Flavor::List(c);
                r
            },
            Flavor::Zero(mut c) => {
                let r = c.try_recv(NO_OWNER);
                *self = Flavor::Zero(c);
                r
            },
        }
    }
}


impl<T> Flavor<T> {
    /// One look at the channel for a blocking send: finishes it when the
    /// message can be placed or the channel is disconnected, registers it on
    /// a rendezvous channel without a waiting receiver, and otherwise leaves
    /// it waiting. Returns whether it still waits.
    pub fn poll_send(&mut self, op: &mut SendOp<T>) -> (waiting: bool)
        requires
            old(self).wf(),
        ensures
            final(self).wf(),
            waiting == !(*final(op) is Done),
            send_polled(*old(self), *final(self), *old(op), *final(op)),
    {
        let mut cur = SendOp::Done(Ok(()));
        std::mem::swap(&mut cur, op);
        let mut f = Flavor::placeholder();
        std::mem::swap(&mut f, self);
        let (f, next) = match f {
            Flavor::Array(mut c) => {
                let next = match cur {
                    SendOp::Pending(m) => {
                        proof {
                            c.lemma_count_bounded();
                        }
                        match c.try_send(m) {
                            Ok(()) => SendOp::Done(Ok(())),
                            Err(TrySendError::Full(m)) => SendOp::Pending(m),
                            Err(TrySendError::Disconnected(m)) => SendOp::Done(
                                Err(SendTimeoutError::Disconnected(m)),
                            ),
                        }
                    },
                    // Only a rendezvous registers operations.
                    SendOp::Registered(_) => SendOp::Done(Ok(())),
                    SendOp::Done(x) => SendOp::Done(x),
                };
                (Flavor::Array(c), next)
            },
            Flavor::List(mut c) => {
                let next = match cur {
                    SendOp::Pending(m) => match c.try_send(m) {
                        Ok(()) => SendOp::Done(Ok(())),
                        Err(TrySendError::Full(m)) => SendOp::Pending(m),
                        Err(TrySendError::Disconnected(m)) => SendOp::Done(
                            Err(SendTimeoutError::Disconnected(m)),
                        ),
                    },
                    // Only a rendezvous registers operations.
                    SendOp::Registered(_) => SendOp::Done(Ok(())),
                    SendOp::Done(x) => SendOp::Done(x),
                };
                (Flavor::List(c), next)
            },
            Flavor::Zero(mut c) => {
                let next = match cur {
                    SendOp::Pending(m) => match c.try_send(m, NO_OWNER) {
                        Ok(()) => SendOp::Done(Ok(())),
                        Err(TrySendError::Disconnected(m)) => SendOp::Done(
                            Err(SendTimeoutError::Disconnected(m)),
                        ),
                        Err(TrySendError::Full(m)) => match c.fresh_oper() {
                            Some(oper) => {
                                c.register_send(oper, m);
                                SendOp::Registered(oper)
                            },
                            None => SendOp::Pending(m),
                        },
                    },
                    SendOp::Registered(oper) => match c.poll_send(oper) {
                        Some(x) => SendOp::Done(x),
                        None => SendOp::Registered(oper),
                    },
                    SendOp::Done(x) => SendOp::Done(x),
                };
                (Flavor::Zero(c), next)
            },
        };
        *self = f;
        *op = next;
        op.is_waiting()
    }

    /// One look for a blocking send that keeps its message until it is
    /// placed: it never registers, so on a rendezvous channel it only pairs
    /// with a receive that waits. Returns whether it still waits.
    pub fn poll_send_in_place(&mut self, op: &mut SendOp<T>) -> (waiting: bool)
        requires
            old(self).wf(),
        ensures
            final(self).wf(),
            waiting == !(*final(op) is Done),
            send_polled_in_place(*old(self), *final(self), *old(op), *final(op)),
    {
        match op {
            SendOp::Pending(_) => {},
            _ => {
                return op.is_waiting();
            },
        }
        match self {
            Flavor::Zero(_) => {},
            _ => {
                return self.poll_send(op);
            },
        }
        let mut cur = SendOp::Done(Ok(()));
        std::mem::swap(&mut cur, op);
        let mut f = Flavor::placeholder();
        std::mem::swap(&mut f, self);
        let (f, next) = match f {
            Flavor::Zero(mut c) => {
                let next = match cur {
                    SendOp::Pending(m) => match c.try_send(m, NO_OWNER) {
                        Ok(()) => SendOp::Done(Ok(())),
                        Err(TrySendError::Disconnected(m)) => SendOp::Done(
                            Err(SendTimeoutError::Disconnected(m)),
                        ),
                        Err(TrySendError::Full(m)) => SendOp::Pending(m),
                    },
                    other => other,
                };
                (Flavor::Zero(c), next)
            },
            other => (other, cur),
        };
        *self = f;
        *op = next;
        op.is_waiting()
    }

    /// Finishes a blocking send whose deadline passed: a message still with
    /// the caller comes back as `Timeout`; a registered one is withdrawn
    /// unless a receiver took it meanwhile.
    pub fn abort_send(&mut self, op: &mut SendOp<T>)
        requires
            old(self).wf(),
        ensures
            final(self).wf(),
            send_aborted(*old(self), *final(self), *old(op), *final(op)),
    {
        let mut cur = SendOp::Done(Ok(()));
        std::mem::swap(&mut cur, op);
        match cur {
            SendOp::Pending(m) => {
                *op = SendOp::Done(Err(SendTimeoutError::Timeout(m)));
            },
            SendOp::Registered(oper) => {
                let mut f = Flavor::placeholder();
                std::mem::swap(&mut f, self);
                let (f, res) = match f {
                    Flavor::Zero(mut c) => {
                        let res = c.abort_send(oper);
                        (Flavor::Zero(c), res)
                    },
                    other => (other, Ok(())),
                };
                *self = f;
                *op = SendOp::Done(res);
            },
            SendOp::Done(x) => {
                *op = SendOp::Done(x);
            },
        }
    }

    /// One look at the channel for a blocking receive: finishes it when a
    /// message is available or the channel is empty and disconnected,
    /// registers it on a rendezvous channel without a waiting sender, and
    /// otherwise leaves it waiting. Returns whether it still waits.
    pub fn poll_recv(&mut self, op: &mut RecvOp<T>) -> (waiting: bool)
        requires
            old(self).wf(),
        ensures
            final(self).wf(),
            waiting == !(*final(op) is Done),
            recv_polled(*old(self), *final(self), *old(op), *final(op)),
    {
        let mut cur = RecvOp::Pending;
        std::mem::swap(&mut cur, op);
        let mut f = Flavor::placeholder();
        std::mem::swap(&mut f, self);
        let (f, next) = match f {
            Flavor::Array(mut c) => {
                let next = match cur {
                    RecvOp::Pending => match c.try_recv() {
                        Ok(m) => RecvOp::Done(Ok(m)),
                        Err(TryRecvError::Empty) => RecvOp::Pending,
                        Err(TryRecvError::Disconnected) => RecvOp::Done(
                            Err(RecvTimeoutError::Disconnected),
                        ),
                    },
                    RecvOp::Registered(_) => RecvOp::Done(Err(RecvTimeoutError::Disconnected)),
                    RecvOp::Done(x) => RecvOp::Done(x),
                };
                (Flavor::Array(c), next)
            },
            Flavor::List(mut c) => {
                let next = match cur {
                    RecvOp::Pending => match c.try_recv() {
                        Ok(m) => RecvOp::Done(Ok(m)),
                        Err(TryRecvError::Empty) => RecvOp::Pending,
                        Err(TryRecvError::Disconnected) => RecvOp::Done(
                            Err(RecvTimeoutError::Disconnected),
                        ),
                    },
                    RecvOp::Registered(_) => RecvOp::Done(Err(RecvTimeoutError::Disconnected)),
                    RecvOp::Done(x) => RecvOp::Done(x),
                };
                (Flavor::List(c), next)
            },
            Flavor::Zero(mut c) => {
                let next = match cur {
                    RecvOp::Pending => match c.try_recv(NO_OWNER) {
                        Ok(m) => RecvOp::Done(Ok(m)),
                        Err(TryRecvError::Disconnected) => RecvOp::Done(
                            Err(RecvTimeoutError::Disconnected),
                        ),
                        Err(TryRecvError::Empty) => match c.fresh_oper() {
                            Some(oper) => {
                                c.register_recv(oper);
                                RecvOp::Registered(oper)
                            },
                            None => RecvOp::Pending,
                        },
                    },
                    RecvOp::Registered(oper) => match c.poll_recv(oper) {
                        Some(x) => RecvOp::Done(x),
                        None => RecvOp::Registered(oper),
                    },
                    RecvOp::Done(x) => RecvOp::Done(x),
                };
                (Flavor::Zero(c), next)
            },
        };
        *self = f;
        *op = next;
        op.is_waiting()
    }

    /// Finishes a blocking receive whose deadline passed: `Timeout`, unless a
    /// registered one was handed a message meanwhile.
    pub fn abort_recv(&mut self, op: &mut RecvOp<T>)
        requires
            old(self).wf(),
        ensures
            final(self).wf(),
            recv_aborted(*old(self), *final(self), *old(op), *final(op)),
    {
        let mut cur = RecvOp::Pending;
        std::mem::swap(&mut cur, op);
        match cur {
            RecvOp::Pending => {
                *op = RecvOp::Done(Err(RecvTimeoutError::Timeout));
            },
            RecvOp::Registered(oper) => {
                let mut f = Flavor::placeholder();
                std::mem::swap(&mut f, self);
                let (f, res) = match f {
                    Flavor::Zero(mut c) => {
                        let res = c.abort_recv(oper);
                        (Flavor::Zero(c), res)
                    },
                    other => (other, Err(RecvTimeoutError::Disconnected)),
                };
                *self = f;
                *op = RecvOp::Done(res);
            },
            RecvOp::Done(x) => {
                *op = RecvOp::Done(x);
            },
        }
    }
}

impl<T> Flavor<T> {
    /// The capacity: `Some(cap)` for a ring, `None` for a chain, `Some(0)`
    /// for a rendezvous.
    pub open spec fn spec_capacity(&self) -> Option<usize> {
        match self {
            Flavor::Array(c) => Some(c.cap() as usize),
            Flavor::List(c) => None,
            Flavor::Zero(c) => Some(0usize),
        }
    }

    /// The number of messages held.
    pub fn len(&self) -> (r: usize)
        requires
            self.wf(),
        ensures
            r == self.messages().len(),
    {
        match self {
            Flavor::Array(c) => c.len(),
            Flavor::List(c) => c.len(),
            Flavor::Zero(c) => c.len(),
        }
    }

    /// The capacity.
    pub fn capacity(&self) -> (r: Option<usize>)
        requires
            self.wf(),
        ensures
            r == self.spec_capacity(),
    {
        match self {
            Flavor::Array(c) => c.capacity(),
            Flavor::List(c) => c.capacity(),
            Flavor::Zero(c) => c.capacity(),
        }
    }

    /// Whether no message is held (always, for a rendezvous).
    pub fn is_empty(&self) -> (r: bool)
        requires
            self.wf(),
        ensures
            r == (self.messages().len() == 0),
    {
        match self {
            Flavor::Array(c) => c.is_empty(),
            Flavor::List(c) => c.is_empty(),
            Flavor::Zero(c) => c.is_empty(),
        }
    }

    /// Whether a send would find no room: a full ring; never a chain; always
    /// a rendezvous.
    pub fn is_full(&self) -> (r: bool)
        requires
            self.wf(),
        ensures
            *self matches Flavor::Array(c) ==> r == (c.messages().len() == c.cap()),
            self is List ==> !r,
            self is Zero ==> r,
    {
        match self {
            Flavor::Array(c) => c.is_full(),
            Flavor::List(c) => c.is_full(),
            Flavor::Zero(c) => c.is_full(),
        }
    }

    /// Disconnects on the senders' side. Returns whether this call did it.
    pub fn disconnect_senders(&mut self) -> (r: bool)
        requires
            old(self).wf(),
        ensures
            final(self).wf(),
            same_kind(*old(self), *final(self)),
            final(self).disconnected(),
            r == !old(self).disconnected(),
            final(self).messages() == old(self).messages(),
        opens_invariants none
        no_unwind
    {
        match self {
            Flavor::Array(c) => c.disconnect(),
            Flavor::List(c) => c.disconnect_senders(),
            Flavor::Zero(c) => c.disconnect(),
        }
    }

    /// Disconnects on the receivers' side. Returns whether this call did it.
    /// An unbounded channel then discards its messages at once.
    pub fn disconnect_receivers(&mut self) -> (r: bool)
        requires
            old(self).wf(),
        ensures
            final(self).wf(),
            same_kind(*old(self), *final(self)),
            final(self).disconnected(),
            r == !old(self).disconnected(),
            discards(*old(self), r) ==> final(self).messages() == Seq::<T>::empty(),
            !discards(*old(self), r) ==> final(self).messages() == old(self).messages(),
        opens_invariants none
        no_unwind
    {
        match self {
            Flavor::Array(c) => c.disconnect(),
            Flavor::List(c) => c.disconnect_receivers(),
            Flavor::Zero(c) => c.disconnect(),
        }
    }
}

impl<T> Flavor<T> {
    /// Hands the messages an unbounded channel discarded when its receivers
    /// left to `out` (which must be empty), so that the caller drops them
    /// once it has let go of the lock. Nothing that the channel holds changes.
    pub fn take_discarded(&mut self, out: &mut Vec<list::Block<T>>)
        requires
            old(self).wf(),
            old(out)@.len() == 0,
        ensures
            final(self).wf(),
            same_shape(*old(self), *final(self)),
            final(self).messages() == old(self).messages(),
            final(self).has_room() == old(self).has_room(),
            !(*old(self) is List) ==> *final(self) == *old(self),
        opens_invariants none
        no_unwind
    {
        match self {
            Flavor::List(c) => c.take_discarded(out),
            _ => {},
        }
    }
}

/// Whether a disconnect of the receivers' side, which did (`first`) or did
/// not disconnect the channel, discards the messages held: only an unbounded
/// channel does, the first time.
pub open spec fn discards<T>(f: Flavor<T>, first: bool) -> bool {
    f is List && first
}

/// Largest count of endpoints on one side.
pub const MAX_ENDPOINTS: usize = isize::MAX as usize;

/// The shared body: the flavor's state and the count of live endpoints on
/// each side.
pub struct Counter<T> {
    chan: Flavor<T>,
    senders: usize,
    receivers: usize,
    waiting: SyncWaker,
}

impl<T> Counter<T> {
    #[verifier::type_invariant]
    spec fn inv(self) -> bool {
        &&& self.chan.wf()
        &&& self.senders <= MAX_ENDPOINTS
        &&& self.receivers <= MAX_ENDPOINTS
    }

    /// The flavor's state.
    pub closed spec fn flavor(&self) -> Flavor<T> {
        self.chan
    }

    /// Live senders.
    pub closed spec fn sender_count(&self) -> nat {
        self.senders as nat
    }

    /// Live receivers.
    pub closed spec fn receiver_count(&self) -> nat {
        self.receivers as nat
    }

    /// Hands the messages an unbounded channel discarded when its receivers
    /// left to `out` (which must be empty), for the caller to drop once it
    /// has let go of the lock.
    pub fn take_discarded(&mut self, out: &mut Vec<list::Block<T>>)
        requires
            old(out)@.len() == 0,
        ensures
            same_shape(old(self).flavor(), final(self).flavor()),
            final(self).flavor().messages() == old(self).flavor().messages(),
            final(self).sender_count() == old(self).sender_count(),
            final(self).receiver_count() == old(self).receiver_count(),
        opens_invariants none
        no_unwind
    {
        proof {
            use_type_invariant(&*self);
        }
        self.chan.take_discarded(out);
    }

    /// Threads blocked on the channel.
    pub closed spec fn waiting_count(&self) -> nat {
        self.waiting@
    }

    /// Counts the calling thread as blocked, before it waits.
    pub fn begin_wait(&mut self)
        ensures
            final(self).flavor() == old(self).flavor(),
            final(self).sender_count() == old(self).sender_count(),
            final(self).receiver_count() == old(self).receiver_count(),
            final(self).waiting_count() == if old(self).waiting_count() < usize::MAX {
                old(self).waiting_count() + 1
            } else {
                old(self).waiting_count()
            },
    {
        proof {
            use_type_invariant(&*self);
        }
        self.waiting.register();
    }

    /// Stops counting the calling thread as blocked, once it has waited.
    pub fn end_wait(&mut self)
        ensures
            final(self).flavor() == old(self).flavor(),
            final(self).sender_count() == old(self).sender_count(),
            final(self).receiver_count() == old(self).receiver_count(),
            final(self).waiting_count() == if old(self).waiting_count() > 0 {
                old(self).waiting_count() - 1
            } else {
                0
            },
    {
        proof {
            use_type_invariant(&*self);
        }
        self.waiting.unregister();
    }

    /// Whether some thread is blocked on the channel and needs a wake-up.
    pub fn has_waiters(&self) -> (r: bool)
        ensures
            r == (self.waiting_count() > 0),
        opens_invariants none
        no_unwind
    {
        !self.waiting.is_empty()
    }

    /// A body with one sender and one receiver.
    pub fn new(chan: Flavor<T>) -> (r: Counter<T>)
        requires
            chan.wf(),
        ensures
            r.flavor() == chan,
            r.sender_count() == 1,
            r.receiver_count() == 1,
    {
        Counter { chan, senders: 1, receivers: 1, waiting: SyncWaker::new() }
    }

    /// Counts one more sender (the count stops at `MAX_ENDPOINTS`).
    pub fn acquire_sender(&mut self)
        ensures
            final(self).flavor() == old(self).flavor(),
            final(self).receiver_count() == old(self).receiver_count(),
            final(self).sender_count() == if old(self).sender_count() < MAX_ENDPOINTS {
                old(self).sender_count() + 1
            } else {
                old(self).sender_count()
            },
    {
        proof {
            use_type_invariant(&*self);
        }
        if self.senders < MAX_ENDPOINTS {
            self.senders = self.senders + 1;
        }
    }

    /// Counts one more receiver (the count stops at `MAX_ENDPOINTS`).
    pub fn acquire_receiver(&mut self)
        ensures
            final(self).flavor() == old(self).flavor(),
            final(self).sender_count() == old(self).sender_count(),
            final(self).receiver_count() == if old(self).receiver_count() < MAX_ENDPOINTS {
                old(self).receiver_count() + 1
            } else {
                old(self).receiver_count()
            },
    {
        proof {
            use_type_invariant(&*self);
        }
        if self.receivers < MAX_ENDPOINTS {
            self.receivers = self.receivers + 1;
        }
    }

    /// Counts one sender less; the last one disconnects the channel. Returns
    /// whether this call disconnected it.
    pub fn release_sender(&mut self) -> (r: bool)
        ensures
            final(self).receiver_count() == old(self).receiver_count(),
            final(self).sender_count() == if old(self).sender_count() > 0 {
                old(self).sender_count() - 1
            } else {
                0
            },
            final(self).flavor().messages() == old(self).flavor().messages(),
            same_kind(old(self).flavor(), final(self).flavor()),
            old(self).sender_count() == 1 ==> final(self).flavor().disconnected(),
            old(self).sender_count() != 1 ==> final(self).flavor() == old(self).flavor(),
            r == (old(self).sender_count() == 1 && !old(self).flavor().disconnected()),
        opens_invariants none
        no_unwind
    {
        proof {
            use_type_invariant(&*self);
        }
        if self.senders > 0 {
            self.senders = self.senders - 1;
            if self.senders == 0 {
                return self.chan.disconnect_senders();
            }
        }
        false
    }

    /// Counts one receiver less; the last one disconnects the channel, and an
    /// unbounded channel then discards its messages. Returns whether this
    /// call disconnected it.
    pub fn release_receiver(&mut self) -> (r: bool)
        ensures
            final(self).sender_count() == old(self).sender_count(),
            final(self).receiver_count() == if old(self).receiver_count() > 0 {
                old(self).receiver_count() - 1
            } else {
                0
            },
            same_kind(old(self).flavor(), final(self).flavor()),
            old(self).receiver_count() == 1 ==> final(self).flavor().disconnected(),
            old(self).receiver_count() != 1 ==> final(self).flavor() == old(self).flavor(),
            r == (old(self).receiver_count() == 1 && !old(self).flavor().disconnected()),
            discards(old(self).flavor(), r) ==> final(self).flavor().messages()
                == Seq::<T>::empty(),
            !discards(old(self).flavor(), r) ==> final(self).flavor().messages()
                == old(self).flavor().messages(),
        opens_invariants none
        no_unwind
    {
        proof {
            use_type_invariant(&*self);
        }
        if self.receivers > 0 {
            self.receivers = self.receivers - 1;
            if self.receivers == 0 {
                return self.chan.disconnect_receivers();
            }
        }
        false
    }

    /// Sends without blocking.
    pub fn try_send(&mut self, msg: T) -> (r: Result<(), TrySendError<T>>)
        ensures
            final(self).sender_count() == old(self).sender_count(),
            final(self).receiver_count() == old(self).receiver_count(),
            sent(old(self).flavor(), final(self).flavor(), msg, r),
    {
        proof {
            use_type_invariant(&*self);
        }
        let mut chan = Flavor::placeholder();
        std::mem::swap(&mut chan, &mut self.chan);
        let r = chan.try_send(msg);
        std::mem::swap(&mut chan, &mut self.chan);
        r
    }

    /// Receives without blocking.
    pub fn try_recv(&mut self) -> (r: Result<T, TryRecvError>)
        ensures
            final(self).sender_count() == old(self).sender_count(),
            final(self).receiver_count() == old(self).receiver_count(),
            received(old(self).flavor(), final(self).flavor(), r),
    {
        proof {
            use_type_invariant(&*self);
        }
        let mut chan = Flavor::placeholder();
        std::mem::swap(&mut chan, &mut self.chan);
        let r = chan.try_recv();
        std::mem::swap(&mut chan, &mut self.chan);
        r
    }

    /// One look for a blocking send. Returns whether it still waits.
    pub fn poll_send(&mut self, op: &mut SendOp<T>) -> (waiting: bool)
        ensures
            final(self).sender_count() == old(self).sender_count(),
            final(self).receiver_count() == old(self).receiver_count(),
            waiting == !(*final(op) is Done),
            send_polled(old(self).flavor(), final(self).flavor(), *old(op), *final(op)),
    {
        proof {
            use_type_invariant(&*self);
        }
        let mut chan = Flavor::placeholder();
        std::mem::swap(&mut chan, &mut self.chan);
        let r = chan.poll_send(op);
        std::mem::swap(&mut chan, &mut self.chan);
        r
    }

    /// One look for a blocking send that never registers. Returns whether it
    /// still waits.
    pub fn poll_send_in_place(&mut self, op: &mut SendOp<T>) -> (waiting: bool)
        ensures
            final(self).sender_count() == old(self).sender_count(),
            final(self).receiver_count() == old(self).receiver_count(),
            waiting == !(*final(op) is Done),
            send_polled_in_place(old(self).flavor(), final(self).flavor(), *old(op), *final(op)),
    {
        proof {
            use_type_invariant(&*self);
        }
        let mut chan = Flavor::placeholder();
        std::mem::swap(&mut chan, &mut self.chan);
        let r = chan.poll_send_in_place(op);
        std::mem::swap(&mut chan, &mut self.chan);
        r
    }

    /// Finishes a blocking send whose deadline passed.
    pub fn abort_send(&mut self, op: &mut SendOp<T>)
        ensures
            final(self).sender_count() == old(self).sender_count(),
            final(self).receiver_count() == old(self).receiver_count(),
            send_aborted(old(self).flavor(), final(self).flavor(), *old(op), *final(op)),
    {
        proof {
            use_type_invariant(&*self);
        }
        let mut chan = Flavor::placeholder();
        std::mem::swap(&mut chan, &mut self.chan);
        let r = chan.abort_send(op);
        std::mem::swap(&mut chan, &mut self.chan);
        r
    }

    /// One look for a blocking receive. Returns whether it still waits.
    pub fn poll_recv(&mut self, op: &mut RecvOp<T>) -> (waiting: bool)
        ensures
            final(self).sender_count() == old(self).sender_count(),
            final(self).receiver_count() == old(self).receiver_count(),
            waiting == !(*final(op) is Done),
            recv_polled(old(self).flavor(), final(self).flavor(), *old(op), *final(op)),
    {
        proof {
            use_type_invariant(&*self);
        }
        let mut chan = Flavor::placeholder();
        std::mem::swap(&mut chan, &mut self.chan);
        let r = chan.poll_recv(op);
        std::mem::swap(&mut chan, &mut self.chan);
        r
    }

    /// Finishes a blocking receive whose deadline passed.
    pub fn abort_recv(&mut self, op: &mut RecvOp<T>)
        ensures
            final(self).sender_count() == old(self).sender_count(),
            final(self).receiver_count() == old(self).receiver_count(),
            recv_aborted(old(self).flavor(), final(self).flavor(), *old(op), *final(op)),
    {
        proof {
            use_type_invariant(&*self);
        }
        let mut chan = Flavor::placeholder();
        std::mem::swap(&mut chan, &mut self.chan);
        let r = chan.abort_recv(op);
        std::mem::swap(&mut chan, &mut self.chan);
        r
    }

    /// The number of messages held.
    pub fn len(&self) -> (r: usize)
        ensures
            r == self.flavor().messages().len(),
            self.flavor() matches Flavor::Array(c) ==> r <= c.cap(),
            self.flavor() is Zero ==> r == 0,
    {
        proof {
            use_type_invariant(self);
            if self.chan is Array {
                self.chan->Array_0.lemma_count_bounded();
            }
        }
        self.chan.len()
    }

    /// The capacity.
    pub fn capacity(&self) -> (r: Option<usize>)
        ensures
            r == self.flavor().spec_capacity(),
    {
        proof {
            use_type_invariant(self);
        }
        self.chan.capacity()
    }

    /// Whether no message is held.
    pub fn is_empty(&self) -> (r: bool)
        ensures
            r == (self.flavor().messages().len() == 0),
    {
        proof {
            use_type_invariant(self);
        }
        self.chan.is_empty()
    }

    /// Whether a send would find no room.
    pub fn is_full(&self) -> (r: bool)
        ensures
            self.flavor() matches Flavor::Array(c) ==> r == (c.messages().len() == c.cap()),
            self.flavor() is List ==> !r,
            self.flavor() is Zero ==> r,
    {
        proof {
            use_type_invariant(self);
        }
        self.chan.is_full()
    }
}

} // verus!
