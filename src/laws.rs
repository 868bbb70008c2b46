//! Laws that relate several channel operations, proved from their contracts.
use vstd::prelude::*;
use crate::counter::{
    received, recv_aborted, recv_polled, send_aborted, send_polled, sent, Flavor, RecvOp, SendOp,
    NO_OWNER,
};
use crate::errors::{RecvTimeoutError, SendTimeoutError, TryRecvError, TrySendError};
use crate::waker::eligible;
use crate::zero;

verus! {

/// One completed operation on a buffered channel.
pub enum Step<T> {
    /// A send that placed this message.
    Sent(T),
    /// A receive that took this message.
    Received(T),
}

/// The messages placed by the sends of `steps`, in order.
pub open spec fn sent_values<T>(steps: Seq<Step<T>>) -> Seq<T>
    decreases steps.len(),
{
    if steps.len() == 0 {
        Seq::empty()
    } else {
        let rest = sent_values(steps.drop_last());
        match steps.last() {
            Step::Sent(m) => rest.push(m),
            Step::Received(_) => rest,
        }
    }
}

/// The messages taken by the receives of `steps`, in order.
pub open spec fn received_values<T>(steps: Seq<Step<T>>) -> Seq<T>
    decreases steps.len(),
{
    if steps.len() == 0 {
        Seq::empty()
    } else {
        let rest = received_values(steps.drop_last());
        match steps.last() {
            Step::Sent(_) => rest,
            Step::Received(m) => rest.push(m),
        }
    }
}

/// `post` follows `pre` by the successful operation `step`.
pub open spec fn step_taken<T>(pre: Flavor<T>, post: Flavor<T>, step: Step<T>) -> bool {
    match step {
        Step::Sent(m) => sent(pre, post, m, Ok(())),
        Step::Received(m) => received(pre, post, Ok(m)),
    }
}

/// Every step of a run keeps the kind of channel, so a run that starts on a
/// buffered channel stays on one.
pub proof fn lemma_run_stays_buffered<T>(states: Seq<Flavor<T>>, steps: Seq<Step<T>>)
    requires
        states.len() == steps.len() + 1,
        !(states[0] is Zero),
        forall|i: int| 0 <= i < steps.len() ==> #[trigger] step_taken(states[i], states[i + 1], steps[i]),
    ensures
        forall|i: int| 0 <= i < states.len() ==> !(#[trigger] states[i] is Zero),
    decreases steps.len(),
{
    if steps.len() > 0 {
        let pre_states = states.drop_last();
        let pre_steps = steps.drop_last();
        assert forall|i: int| 0 <= i < pre_steps.len() implies #[trigger] step_taken(
            pre_states[i],
            pre_states[i + 1],
            pre_steps[i],
        ) by {
            assert(step_taken(states[i], states[i + 1], steps[i]));
        }
        lemma_run_stays_buffered(pre_states, pre_steps);
        let n = steps.len() - 1;
        assert(step_taken(states[n as int], states[n + 1], steps[n as int]));
        assert(!(pre_states[n as int] is Zero));
        assert forall|i: int| 0 <= i < states.len() implies !(#[trigger] states[i] is Zero) by {
            if i < states.len() - 1 {
                assert(states[i] == pre_states[i]);
            }
        }
    }
}

/// No loss, no duplication, and first in first out: over any run of
/// successful sends and receives on a buffered channel, the messages held at
/// the start followed by those sent equal those received followed by the
/// messages held at the end. So every message is received at most once, none
/// is lost, and messages leave in the order they came in (in particular those
/// of one sender).
pub proof fn lemma_queue_order<T>(states: Seq<Flavor<T>>, steps: Seq<Step<T>>)
    requires
        states.len() == steps.len() + 1,
        !(states[0] is Zero),
        forall|i: int| 0 <= i < steps.len() ==> #[trigger] step_taken(states[i], states[i + 1], steps[i]),
    ensures
        states[0].messages() + sent_values(steps) == received_values(steps) + states.last().messages(),
{
    lemma_run_stays_buffered(states, steps);
    lemma_queue_order_buffered(states, steps);
}

proof fn lemma_queue_order_buffered<T>(states: Seq<Flavor<T>>, steps: Seq<Step<T>>)
    requires
        states.len() == steps.len() + 1,
        forall|i: int| 0 <= i < states.len() ==> !(#[trigger] states[i] is Zero),
        forall|i: int|
            0 <= i < steps.len() ==> !(#[trigger] states[i] is Zero) && step_taken(
                states[i],
                states[i + 1],
                steps[i],
            ),
    ensures
        states[0].messages() + sent_values(steps) == received_values(steps) + states.last().messages(),
    decreases steps.len(),
{
    if steps.len() == 0 {
        assert(states[0].messages() + sent_values(steps) =~= received_values(steps) + states.last().messages());
    } else {
        let n = steps.len() - 1;
        let pre_states = states.drop_last();
        let pre_steps = steps.drop_last();
        assert forall|i: int| 0 <= i < pre_steps.len() implies !(#[trigger] pre_states[i] is Zero)
            && step_taken(pre_states[i], pre_states[i + 1], pre_steps[i]) by {
            assert(!(states[i] is Zero) && step_taken(states[i], states[i + 1], steps[i]));
        }
        assert forall|i: int| 0 <= i < pre_states.len() implies !(#[trigger] pre_states[i] is Zero) by {
            assert(states[i] == pre_states[i]);
        }
        lemma_queue_order_buffered(pre_states, pre_steps);
        let a = states[n as int];
        let b = states[n + 1];
        assert(!(states[n as int] is Zero) && step_taken(states[n as int], states[n + 1], steps[n as int]));
        assert(pre_states.last() == a);
        match steps.last() {
            Step::Sent(m) => {
                assert(b.messages() == a.messages().push(m));
                assert(sent_values(steps) == sent_values(pre_steps).push(m));
                assert(received_values(steps) == received_values(pre_steps));
                let x = states[0].messages();
                let sv = sent_values(pre_steps);
                let rv = received_values(pre_steps);
                assert(x + sv == rv + a.messages());
                assert(x + sv.push(m) =~= (x + sv).push(m));
                assert(rv + a.messages().push(m) =~= (rv + a.messages()).push(m));
                assert(states[0].messages() + sent_values(steps) =~= received_values(steps)
                    + states.last().messages());
            },
            Step::Received(m) => {
                assert(a.messages().len() > 0);
                assert(m == a.messages()[0]);
                assert(a.messages() =~= seq![m] + b.messages());
                assert(sent_values(steps) == sent_values(pre_steps));
                assert(received_values(steps) == received_values(pre_steps).push(m));
                let rv = received_values(pre_steps);
                assert(rv + a.messages() =~= rv.push(m) + b.messages());
                assert(states[0].messages() + sent_values(steps) =~= received_values(steps)
                    + states.last().messages());
            },
        }
    }
}

/// A send that timed out delivered nothing: its message comes back and the
/// channel is as it was.
pub proof fn lemma_send_timeout_delivers_nothing<T>(
    pre: Flavor<T>,
    post: Flavor<T>,
    msg: T,
    next: SendOp<T>,
)
    requires
        send_aborted(pre, post, SendOp::Pending(msg), next),
    ensures
        next == SendOp::Done(Err::<(), _>(SendTimeoutError::Timeout(msg))),
        post.messages() == pre.messages(),
{
}

/// A receive that timed out consumed nothing: the channel is as it was.
pub proof fn lemma_recv_timeout_consumes_nothing<T>(
    pre: Flavor<T>,
    post: Flavor<T>,
    next: RecvOp<T>,
)
    requires
        recv_aborted(pre, post, RecvOp::Pending, next),
    ensures
        next == RecvOp::<T>::Done(Err(RecvTimeoutError::Timeout)),
        post.messages() == pre.messages(),
{
}

/// Once a buffered channel is disconnected, one look finishes every waiting
/// receive: with the oldest message while any is held, else with
/// `Disconnected`.
pub proof fn lemma_disconnected_recv_finishes<T>(
    pre: Flavor<T>,
    post: Flavor<T>,
    next: RecvOp<T>,
)
    requires
        !(pre is Zero),
        pre.disconnected(),
        recv_polled(pre, post, RecvOp::Pending, next),
    ensures
        next is Done,
        pre.messages().len() > 0 ==> next == RecvOp::Done(Ok::<T, RecvTimeoutError>(pre.messages()[0])),
        pre.messages().len() == 0 ==> next == RecvOp::<T>::Done(Err(RecvTimeoutError::Disconnected)),
{
}

/// Once a buffered channel is disconnected, one look finishes every waiting
/// send, which hands its message back.
pub proof fn lemma_disconnected_send_finishes<T>(
    pre: Flavor<T>,
    post: Flavor<T>,
    msg: T,
    next: SendOp<T>,
)
    requires
        !(pre is Zero),
        pre.disconnected(),
        send_polled(pre, post, SendOp::Pending(msg), next),
    ensures
        next == SendOp::Done(Err::<(), _>(SendTimeoutError::Disconnected(msg))),
{
}

/// A failed non-blocking send hands back the very message it was given, and
/// on a buffered channel leaves the messages held as they were (a
/// disconnected unbounded channel may drop them, its receivers being gone).
pub proof fn lemma_failed_send_keeps_message<T>(
    pre: Flavor<T>,
    post: Flavor<T>,
    msg: T,
    e: TrySendError<T>,
)
    requires
        sent(pre, post, msg, Err(e)),
    ensures
        e.spec_message() == msg,
        !(pre is Zero) && !pre.disconnected() ==> e == TrySendError::Full(msg) && post.messages()
            == pre.messages(),
{
}

/// A failed non-blocking receive on a buffered channel consumed nothing.
pub proof fn lemma_failed_recv_consumes_nothing<T>(
    pre: Flavor<T>,
    post: Flavor<T>,
    e: TryRecvError,
)
    requires
        !(pre is Zero),
        received(pre, post, Err(e)),
    ensures
        pre.messages().len() == 0,
        post.messages() == pre.messages(),
{
}

/// A rendezvous channel buffers nothing: from one state, a non-blocking
/// send completes exactly when a receive waits to take the message, a
/// non-blocking receive exactly when a send waits to give one, and the
/// channel holds no message before or after either.
pub proof fn lemma_rendezvous_hands_over<T>(
    pre: Flavor<T>,
    after_send: Flavor<T>,
    msg: T,
    s: Result<(), TrySendError<T>>,
    after_recv: Flavor<T>,
    r: Result<T, TryRecvError>,
)
    requires
        pre is Zero,
        after_send is Zero,
        after_recv is Zero,
        sent(pre, after_send, msg, s),
        received(pre, after_recv, r),
    ensures
        pre matches Flavor::Zero(c) ==> (s is Ok <==> c.receiver_waits(NO_OWNER)) && (r is Ok
            <==> c.sender_waits(NO_OWNER)),
        pre.messages().len() == 0,
        after_send.messages().len() == 0,
        after_recv.messages().len() == 0,
{
}

/// A bounded channel never holds more messages than its capacity, in any
/// well-formed state.
pub proof fn lemma_bounded_residency<T>(f: Flavor<T>)
    requires
        f.wf(),
    ensures
        f matches Flavor::Array(c) ==> f.messages().len() <= c.cap(),
        f is Zero ==> f.messages().len() == 0,
{
    if f is Array {
        f->Array_0.lemma_count_bounded();
    }
}

/// Rendezvous pairing: on a connected rendezvous channel where nobody
/// waits, a receive that looks registers; a send that follows succeeds,
/// putting its message in that receive's packet; and the receive's next look
/// returns exactly that message.
pub proof fn lemma_rendezvous_pairs<T>(
    pre: Flavor<T>,
    mid: Flavor<T>,
    registered: RecvOp<T>,
    after_send: Flavor<T>,
    msg: T,
    s: Result<(), TrySendError<T>>,
    post: Flavor<T>,
    done: RecvOp<T>,
)
    requires
        pre matches Flavor::Zero(z) && !z.sender_waits(NO_OWNER) && !z.receiver_waits(NO_OWNER)
            && !z.disconnected() && z.has_free_id() && z.wf(),
        recv_polled(pre, mid, RecvOp::Pending, registered),
        sent(mid, after_send, msg, s),
        recv_polled(after_send, post, registered, done),
    ensures
        registered is Registered,
        s is Ok,
        done == RecvOp::Done(Ok::<T, RecvTimeoutError>(msg)),
{
    let z = pre->Zero_0;
    let z1 = mid->Zero_0;
    let z2 = after_send->Zero_0;
    let o = registered->Registered_0;
    let last = z1.receivers().len() - 1;
    assert(z1.receivers()[last].oper == o);
    assert(eligible(z1.receivers()[last], NO_OWNER));
    assert(z1.receiver_waits(NO_OWNER));
    assert(s is Ok);
    // The receive that took the message is the only one that waits: ours.
    let (i, j) = choose|i: int, j: int|
        0 <= i < z1.receivers().len() && eligible(z1.receivers()[i], NO_OWNER)
            && z2.receivers() == z1.receivers().remove(i)
            && zero::packet_for(z1.packets(), z1.receivers()[i].packet, false, j)
            && z2.packets().len() == z1.packets().len()
            && z2.packets()[j].id() == z1.packets()[j].id()
            && z2.packets()[j].is_ready() && z2.packets()[j].msg() == Some(msg)
            && forall|k: int| 0 <= k < z1.packets().len() && k != j ==> #[trigger] z2.packets()[k] == z1.packets()[k];
    if i != last {
        assert(z1.receivers()[i] == z.receivers()[i]);
        assert(!eligible(z.receivers()[i], NO_OWNER));
    }
    assert(z1.receivers()[i].packet == o.0);
    assert(z2.packets()[j].id() == o.0);
}

} // verus!
