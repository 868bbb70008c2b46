//! The public endpoints. Every endpoint of one channel shares its body, a
//! lock around it, and a condition variable on which blocked operations
//! wait; each operation takes the lock, looks at the body, and wakes the
//! waiters once it has changed it.
use vstd::prelude::*;
use crate::array;
use crate::counter::{send_kept, send_polled, send_polled_in_place, Counter, Flavor, RecvOp, SendOp};
use crate::errors::{
    RecvError, RecvTimeoutError, SendError, SendTimeoutError, TryRecvError, TrySendError,
};
use crate::list;
use crate::sync::{
    checked_add, guarded, lock, new_condvar, new_mutex, notify_all, now, reached, same_allocation,
    time_left, wait, wait_timeout,
};
use crate::zero;

verus! {

/// Which flavor a channel is.
#[derive(Debug, Clone, Copy, PartialEq, Eq, Structural)]
pub enum Kind {
    /// Bounded, with a positive capacity.
    Array,
    /// Unbounded.
    List,
    /// Rendezvous.
    Zero,
}

/// What the endpoints of one channel share.
#[verifier::reject_recursive_types(T)]
struct Shared<T> {
    body: std::sync::Mutex<Counter<T>>,
    signal: std::sync::Condvar,
    cap: Option<usize>,
}

/// The sending side of a channel.
#[verifier::reject_recursive_types(T)]
pub struct Sender<T> {
    shared: std::sync::Arc<Shared<T>>,
    kind: Kind,
}

/// The receiving side of a channel.
#[verifier::reject_recursive_types(T)]
pub struct Receiver<T> {
    shared: std::sync::Arc<Shared<T>>,
    kind: Kind,
}

fn make_shared<T>(chan: Flavor<T>) -> (r: std::sync::Arc<Shared<T>>)
    requires
        chan.wf(),
    ensures
        r.cap == chan.spec_capacity(),
{
    let cap = chan.capacity();
    let body = Counter::new(chan);
    std::sync::Arc::new(Shared { body: new_mutex(body), signal: new_condvar(), cap })
}

/// Wakes the threads blocked on the channel, if there are any.
fn wake<T>(body: &mut Counter<T>, signal: &std::sync::Condvar)
    opens_invariants none
    no_unwind
{
    if body.has_waiters() {
        notify_all(signal);
    }
}

/// One look for a blocking send: one that keeps its message until it is
/// placed (`in_place`, for a buffered channel), or one that may register
/// on a rendezvous channel.
fn poll_send_step<T>(body: &mut Counter<T>, op: &mut SendOp<T>, in_place: bool) -> (waiting: bool)
    ensures
        waiting == !(*final(op) is Done),
        *old(op) is Done ==> *final(op) == *old(op),
        in_place ==> (*old(op) matches SendOp::Pending(m) ==> send_kept(m, *final(op))),
        in_place ==> send_polled_in_place(old(body).flavor(), final(body).flavor(), *old(op), *final(op)),
        !in_place ==> send_polled(old(body).flavor(), final(body).flavor(), *old(op), *final(op)),
        final(body).sender_count() == old(body).sender_count(),
        final(body).receiver_count() == old(body).receiver_count(),
{
    if in_place {
        body.poll_send_in_place(op)
    } else {
        body.poll_send(op)
    }
}

/// A new unbounded channel.
pub fn channel<T>() -> (r: (Sender<T>, Receiver<T>))
    ensures
        r.0.kind() == Kind::List,
        r.1.kind() == Kind::List,
        r.0.spec_capacity() is None,
        r.1.spec_capacity() is None,
{
    let shared = make_shared(Flavor::List(list::Channel::new()));
    let s = Sender { shared: shared.clone(), kind: Kind::List };
    let r = Receiver { shared, kind: Kind::List };
    (s, r)
}

/// A new bounded channel of capacity `cap`; with `cap == 0`, a rendezvous
/// channel.
pub fn sync_channel<T>(cap: usize) -> (r: (Sender<T>, Receiver<T>))
    requires
        cap <= array::MAX_CAP,
    ensures
        r.0.kind() == if cap == 0 { Kind::Zero } else { Kind::Array },
        r.1.kind() == r.0.kind(),
        r.0.spec_capacity() == Some(cap),
        r.1.spec_capacity() == Some(cap),
{
    if cap == 0 {
        let shared = make_shared(Flavor::Zero(zero::Channel::new()));
        let s = Sender { shared: shared.clone(), kind: Kind::Zero };
        let r = Receiver { shared, kind: Kind::Zero };
        (s, r)
    } else {
        let shared = make_shared(Flavor::Array(array::Channel::with_capacity(cap)));
        let s = Sender { shared: shared.clone(), kind: Kind::Array };
        let r = Receiver { shared, kind: Kind::Array };
        (s, r)
    }
}

impl<T> Sender<T> {
    /// The channel's flavor.
    pub closed spec fn kind(&self) -> Kind {
        self.kind
    }

    /// The channel's capacity.
    pub closed spec fn spec_capacity(&self) -> Option<usize> {
        self.shared.cap
    }

    /// Sends without blocking: the message comes back with `Full` when there
    /// is no room (no waiting receiver, for a rendezvous) and with
    /// `Disconnected` when every receiver is gone.
    pub fn try_send(&self, msg: T) -> (r: Result<(), TrySendError<T>>)
        ensures
            r matches Err(e) ==> e.spec_message() == msg,
    {
        // Messages discarded by the channel are dropped after the lock.
        let mut gone: Vec<list::Block<T>> = Vec::new();
        let mut g = lock(&self.shared.body);
        guarded(&mut g).take_discarded(&mut gone);
        let r = guarded(&mut g).try_send(msg);
        wake(guarded(&mut g), &self.shared.signal);
        r
    }

    /// Sends, blocking until there is room (a receiver, for a rendezvous);
    /// fails only when every receiver is gone, handing the message back. A
    /// send that has been woken `u64::MAX` times without success gives up.
    pub fn send(&self, msg: T) -> (r: Result<(), SendError<T>>)
        ensures
            self.kind() != Kind::Zero ==> (r matches Err(SendError(m)) ==> m == msg),
    {
        let ghost m0 = msg;
        let in_place = self.kind != Kind::Zero;
        let mut op = SendOp::Pending(msg);
        // Messages discarded by the channel are dropped after the lock.
        let mut gone: Vec<list::Block<T>> = Vec::new();
        let mut g = lock(&self.shared.body);
        guarded(&mut g).take_discarded(&mut gone);
        let mut waiting = poll_send_step(guarded(&mut g), &mut op, in_place);
        let mut rounds: u64 = 0;
        while waiting && rounds < u64::MAX
            invariant
                waiting == !(op is Done),
                in_place ==> send_kept(m0, op),
            decreases u64::MAX - rounds,
        {
            guarded(&mut g).begin_wait();
            g = wait(&self.shared.signal, g);
            guarded(&mut g).end_wait();
            waiting = poll_send_step(guarded(&mut g), &mut op, in_place);
            rounds = rounds + 1;
        }
        if op.is_waiting() {
            guarded(&mut g).abort_send(&mut op);
        }
        wake(guarded(&mut g), &self.shared.signal);
        match op.into_result() {
            Ok(()) => Ok(()),
            Err(e) => Err(SendError(e.into_inner())),
        }
    }

    /// Sends, blocking for at most `timeout`.
    pub fn send_timeout(&self, msg: T, timeout: std::time::Duration) -> (r: Result<(), SendTimeoutError<T>>)
        ensures
            self.kind() != Kind::Zero ==> (r matches Err(e) ==> e.spec_message() == msg),
    {
        match checked_add(now(), timeout) {
            Some(deadline) => self.send_deadline(msg, deadline),
            // So far in the future that it is the same as waiting for ever.
            None => match self.send(msg) {
                Ok(()) => Ok(()),
                Err(e) => Err(SendTimeoutError::from(e)),
            },
        }
    }

    /// Sends, blocking until `deadline` at the latest; then the message
    /// comes back with `Timeout`.
    pub fn send_deadline(&self, msg: T, deadline: std::time::Instant) -> (r: Result<(), SendTimeoutError<T>>)
        ensures
            self.kind() != Kind::Zero ==> (r matches Err(e) ==> e.spec_message() == msg),
    {
        let ghost m0 = msg;
        let in_place = self.kind != Kind::Zero;
        let mut op = SendOp::Pending(msg);
        // Messages discarded by the channel are dropped after the lock.
        let mut gone: Vec<list::Block<T>> = Vec::new();
        let mut g = lock(&self.shared.body);
        guarded(&mut g).take_discarded(&mut gone);
        let mut waiting = poll_send_step(guarded(&mut g), &mut op, in_place);
        let mut expired = false;
        let mut rounds: u64 = 0;
        while waiting && !expired && rounds < u64::MAX
            invariant
                waiting == !(op is Done),
                in_place ==> send_kept(m0, op),
            decreases u64::MAX - rounds,
        {
            let t = now();
            if reached(t, deadline) {
                expired = true;
            } else {
                guarded(&mut g).begin_wait();
                g = wait_timeout(&self.shared.signal, g, time_left(deadline, t));
                guarded(&mut g).end_wait();
                waiting = poll_send_step(guarded(&mut g), &mut op, in_place);
            }
            rounds = rounds + 1;
        }
        if op.is_waiting() {
            guarded(&mut g).abort_send(&mut op);
        }
        wake(guarded(&mut g), &self.shared.signal);
        op.into_result()
    }

    /// Whether the channel holds no message (always true for a rendezvous).
    pub fn is_empty(&self) -> (r: bool)
        ensures
            self.kind() == Kind::Zero ==> r,
    {
        if self.kind == Kind::Zero {
            return true;
        }
        let mut g = lock(&self.shared.body);
        guarded(&mut g).is_empty()
    }

    /// Whether a send would find no room (always true for a rendezvous,
    /// never for an unbounded channel).
    pub fn is_full(&self) -> (r: bool)
        ensures
            self.kind() == Kind::Zero ==> r,
            self.kind() == Kind::List ==> !r,
    {
        match self.kind {
            Kind::Zero => true,
            Kind::List => false,
            Kind::Array => {
                let mut g = lock(&self.shared.body);
                guarded(&mut g).is_full()
            },
        }
    }

    /// The number of messages the channel holds (always 0 for a rendezvous).
    pub fn len(&self) -> (r: usize)
        ensures
            self.kind() == Kind::Zero ==> r == 0,
    {
        if self.kind == Kind::Zero {
            return 0;
        }
        let mut g = lock(&self.shared.body);
        guarded(&mut g).len()
    }

    /// The capacity: `Some(cap)` for a bounded channel, `Some(0)` for a
    /// rendezvous, `None` for an unbounded one.
    pub fn capacity(&self) -> (r: Option<usize>)
        ensures
            r == self.spec_capacity(),
    {
        self.shared.cap
    }

    /// Whether both senders belong to one channel.
    pub fn same_channel(&self, other: &Sender<T>) -> (r: bool)
        ensures
            r ==> self.kind() == other.kind(),
    {
        self.kind == other.kind && same_allocation(&self.shared, &other.shared)
    }
}

impl<T> Clone for Sender<T> {
    /// Another sender of the same channel.
    fn clone(&self) -> (r: Self)
        ensures
            r.kind() == self.kind(),
            r.spec_capacity() == self.spec_capacity(),
    {
        let mut g = lock(&self.shared.body);
        guarded(&mut g).acquire_sender();
        Sender { shared: self.shared.clone(), kind: self.kind }
    }
}

impl<T> Drop for Sender<T> {
    /// The last sender disconnects the channel and wakes every waiter.
    fn drop(&mut self)
        opens_invariants none
        no_unwind
    {
        let mut g = lock(&self.shared.body);
        let _ = guarded(&mut g).release_sender();
        wake(guarded(&mut g), &self.shared.signal);
    }
}

impl<T> Receiver<T> {
    /// The channel's flavor.
    pub closed spec fn kind(&self) -> Kind {
        self.kind
    }

    /// The channel's capacity.
    pub closed spec fn spec_capacity(&self) -> Option<usize> {
        self.shared.cap
    }

    /// Receives without blocking: `Empty` when no message is available,
    /// `Disconnected` when moreover every sender is gone.
    pub fn try_recv(&self) -> Result<T, TryRecvError> {
        let mut g = lock(&self.shared.body);
        let r = guarded(&mut g).try_recv();
        wake(guarded(&mut g), &self.shared.signal);
        r
    }

    /// Receives, blocking until a message is available; fails only when the
    /// channel is empty and every sender is gone. A receive that has been
    /// woken `u64::MAX` times without success gives up.
    pub fn recv(&self) -> Result<T, RecvError> {
        let mut op = RecvOp::Pending;
        let mut g = lock(&self.shared.body);
        let mut waiting = guarded(&mut g).poll_recv(&mut op);
        let mut rounds: u64 = 0;
        while waiting && rounds < u64::MAX
            invariant
                waiting == !(op is Done),
            decreases u64::MAX - rounds,
        {
            guarded(&mut g).begin_wait();
            g = wait(&self.shared.signal, g);
            guarded(&mut g).end_wait();
            waiting = guarded(&mut g).poll_recv(&mut op);
            rounds = rounds + 1;
        }
        if op.is_waiting() {
            guarded(&mut g).abort_recv(&mut op);
        }
        wake(guarded(&mut g), &self.shared.signal);
        match op.into_result() {
            Ok(m) => Ok(m),
            Err(_) => Err(RecvError),
        }
    }

    /// Receives, blocking for at most `timeout`.
    pub fn recv_timeout(&self, timeout: std::time::Duration) -> Result<T, RecvTimeoutError> {
        match checked_add(now(), timeout) {
            Some(deadline) => self.recv_deadline(deadline),
            // So far in the future that it is the same as waiting for ever.
            None => match self.recv() {
                Ok(m) => Ok(m),
                Err(e) => Err(RecvTimeoutError::from(e)),
            },
        }
    }

    /// Receives, blocking until `deadline` at the latest; then `Timeout`.
    pub fn recv_deadline(&self, deadline: std::time::Instant) -> Result<T, RecvTimeoutError> {
        let mut op = RecvOp::Pending;
        let mut g = lock(&self.shared.body);
        let mut waiting = guarded(&mut g).poll_recv(&mut op);
        let mut expired = false;
        let mut rounds: u64 = 0;
        while waiting && !expired && rounds < u64::MAX
            invariant
                waiting == !(op is Done),
            decreases u64::MAX - rounds,
        {
            let t = now();
            if reached(t, deadline) {
                expired = true;
            } else {
                guarded(&mut g).begin_wait();
                g = wait_timeout(&self.shared.signal, g, time_left(deadline, t));
                guarded(&mut g).end_wait();
                waiting = guarded(&mut g).poll_recv(&mut op);
            }
            rounds = rounds + 1;
        }
        if op.is_waiting() {
            guarded(&mut g).abort_recv(&mut op);
        }
        wake(guarded(&mut g), &self.shared.signal);
        op.into_result()
    }

    /// Whether the channel holds no message (always true for a rendezvous).
    pub fn is_empty(&self) -> (r: bool)
        ensures
            self.kind() == Kind::Zero ==> r,
    {
        if self.kind == Kind::Zero {
            return true;
        }
        let mut g = lock(&self.shared.body);
        guarded(&mut g).is_empty()
    }

    /// Whether a send would find no room (always true for a rendezvous,
    /// never for an unbounded channel).
    pub fn is_full(&self) -> (r: bool)
        ensures
            self.kind() == Kind::Zero ==> r,
            self.kind() == Kind::List ==> !r,
    {
        match self.kind {
            Kind::Zero => true,
            Kind::List => false,
            Kind::Array => {
                let mut g = lock(&self.shared.body);
                guarded(&mut g).is_full()
            },
        }
    }

    /// The number of messages the channel holds (always 0 for a rendezvous).
    pub fn len(&self) -> (r: usize)
        ensures
            self.kind() == Kind::Zero ==> r == 0,
    {
        if self.kind == Kind::Zero {
            return 0;
        }
        let mut g = lock(&self.shared.body);
        guarded(&mut g).len()
    }

    /// The capacity: `Some(cap)` for a bounded channel, `Some(0)` for a
    /// rendezvous, `None` for an unbounded one.
    pub fn capacity(&self) -> (r: Option<usize>)
        ensures
            r == self.spec_capacity(),
    {
        self.shared.cap
    }

    /// Whether both receivers belong to one channel.
    pub fn same_channel(&self, other: &Receiver<T>) -> (r: bool)
        ensures
            r ==> self.kind() == other.kind(),
    {
        self.kind == other.kind && same_allocation(&self.shared, &other.shared)
    }
}

impl<T> Clone for Receiver<T> {
    /// Another receiver of the same channel.
    fn clone(&self) -> (r: Self)
        ensures
            r.kind() == self.kind(),
            r.spec_capacity() == self.spec_capacity(),
    {
        let mut g = lock(&self.shared.body);
        guarded(&mut g).acquire_receiver();
        Receiver { shared: self.shared.clone(), kind: self.kind }
    }
}

impl<T> Drop for Receiver<T> {
    /// The last receiver disconnects the channel and wakes every waiter.
    fn drop(&mut self)
        opens_invariants none
        no_unwind
    {
        let mut g = lock(&self.shared.body);
        let _ = guarded(&mut g).release_receiver();
        wake(guarded(&mut g), &self.shared.signal);
    }
}

} // verus!
