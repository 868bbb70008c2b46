//! The rendezvous flavor: a send completes only when a receive takes its
//! message. Blocked operations register in one of two registries and expose a
//! packet; a counterpart pairs with the first one that still waits.
use vstd::prelude::*;
use vstd::seq_lib::seq_to_set_is_finite;
use vstd::set_lib::{lemma_int_range, lemma_len_subset, set_int_range};
use crate::context::Context;
use crate::errors::{RecvTimeoutError, SendTimeoutError, TryRecvError, TrySendError};
use crate::select::{Operation, Selected};
use crate::waker::{chosen, eligible, Entry, Waker};

verus! {

/// The slot through which a blocked operation and its counterpart pass a
/// message. A sender's packet holds its message until a receiver takes it; a
/// receiver's packet is empty until a sender fills it. `ready` is set by the
/// counterpart once it has done its part.
pub struct Packet<T> {
    id: usize,
    ready: bool,
    msg: Option<T>,
}

impl<T> Packet<T> {
    pub closed spec fn id(&self) -> usize {
        self.id
    }

    pub closed spec fn is_ready(&self) -> bool {
        self.ready
    }

    pub closed spec fn msg(&self) -> Option<T> {
        self.msg
    }

    /// The packet of a blocked receive: empty, not ready.
    pub fn empty_on_stack(id: usize) -> (r: Packet<T>)
        ensures
            r.id() == id,
            !r.is_ready(),
            r.msg() is None,
    {
        Packet { id, ready: false, msg: None }
    }

    /// The packet of a blocked send: holding its message, not ready.
    pub fn message_on_stack(id: usize, msg: T) -> (r: Packet<T>)
        ensures
            r.id() == id,
            !r.is_ready(),
            r.msg() == Some(msg),
    {
        Packet { id, ready: false, msg: Some(msg) }
    }
}

/// The rendezvous channel body.
pub struct Channel<T> {
    senders: Waker,
    receivers: Waker,
    packets: Vec<Packet<T>>,
    is_disconnected: bool,
    next_oper: usize,
}

/// Packet `j` of `ps` belongs to the waiting operation `id`: not ready yet,
/// holding a message exactly when the operation is a send.
pub open spec fn packet_for<T>(ps: Seq<Packet<T>>, id: usize, sending: bool, j: int) -> bool {
    &&& 0 <= j < ps.len()
    &&& ps[j].id() == id
    &&& !ps[j].is_ready()
    &&& (ps[j].msg() is Some <==> sending)
}

/// The waiting operation `id` has its packet in `ps`.
pub open spec fn has_packet<T>(ps: Seq<Packet<T>>, id: usize, sending: bool) -> bool {
    exists|j: int| packet_for(ps, id, sending, j)
}

/// Every entry of `es` exposes the packet named by its id, which waits.
pub open spec fn entries_backed<T>(es: Seq<Entry>, ps: Seq<Packet<T>>, sending: bool) -> bool {
    forall|i: int|
        0 <= i < es.len() ==> (#[trigger] es[i]).packet == es[i].oper.0 && has_packet(
            ps,
            es[i].packet,
            sending,
        )
}

/// No two entries of `es` share an operation id.
pub open spec fn opers_distinct(es: Seq<Entry>) -> bool {
    forall|i: int, k: int|
        0 <= i < es.len() && 0 <= k < es.len() && i != k ==> (#[trigger] es[i]).oper != (
        #[trigger] es[k]).oper
}

/// No entry of `a` shares an operation id with an entry of `b`.
pub open spec fn opers_apart(a: Seq<Entry>, b: Seq<Entry>) -> bool {
    forall|i: int, k: int|
        0 <= i < a.len() && 0 <= k < b.len() ==> (#[trigger] a[i]).oper != (#[trigger] b[k]).oper
}

/// No entry of `es` carries id `id`.
pub open spec fn no_entry<T>(es: Seq<Entry>, id: usize) -> bool {
    forall|i: int| 0 <= i < es.len() ==> (#[trigger] es[i]).oper.0 != id
}

proof fn lemma_backed_update<T>(es: Seq<Entry>, ps: Seq<Packet<T>>, sending: bool, j: int, p: Packet<T>)
    requires
        entries_backed(es, ps, sending),
        0 <= j < ps.len(),
        no_entry::<T>(es, ps[j].id()),
    ensures
        entries_backed(es, ps.update(j, p), sending),
{
    assert forall|i: int| 0 <= i < es.len() implies (#[trigger] es[i]).packet == es[i].oper.0
        && has_packet(ps.update(j, p), es[i].packet, sending) by {
        let w = choose|w: int| packet_for(ps, es[i].packet, sending, w);
        assert(w != j);
        assert(packet_for(ps.update(j, p), es[i].packet, sending, w));
    }
}

proof fn lemma_backed_remove<T>(es: Seq<Entry>, ps: Seq<Packet<T>>, sending: bool, j: int)
    requires
        entries_backed(es, ps, sending),
        0 <= j < ps.len(),
        no_entry::<T>(es, ps[j].id()),
    ensures
        entries_backed(es, ps.remove(j), sending),
{
    assert forall|i: int| 0 <= i < es.len() implies (#[trigger] es[i]).packet == es[i].oper.0
        && has_packet(ps.remove(j), es[i].packet, sending) by {
        let w = choose|w: int| packet_for(ps, es[i].packet, sending, w);
        assert(w != j);
        let w2 = if w < j { w } else { w - 1 };
        assert(ps.remove(j)[w2] == ps[w]);
        assert(packet_for(ps.remove(j), es[i].packet, sending, w2));
    }
}

proof fn lemma_backed_push<T>(es: Seq<Entry>, ps: Seq<Packet<T>>, sending: bool, p: Packet<T>)
    requires
        entries_backed(es, ps, sending),
    ensures
        entries_backed(es, ps.push(p), sending),
{
    assert forall|i: int| 0 <= i < es.len() implies (#[trigger] es[i]).packet == es[i].oper.0
        && has_packet(ps.push(p), es[i].packet, sending) by {
        let w = choose|w: int| packet_for(ps, es[i].packet, sending, w);
        assert(packet_for(ps.push(p), es[i].packet, sending, w));
    }
}

proof fn lemma_entries_remove<T>(es: Seq<Entry>, ps: Seq<Packet<T>>, sending: bool, i: int)
    requires
        entries_backed(es, ps, sending),
        opers_distinct(es),
        0 <= i < es.len(),
    ensures
        entries_backed(es.remove(i), ps, sending),
        opers_distinct(es.remove(i)),
        no_entry::<T>(es.remove(i), es[i].oper.0),
        forall|id: usize| no_entry::<T>(es, id) ==> no_entry::<T>(es.remove(i), id),
        forall|b: Seq<Entry>| opers_apart(es, b) ==> opers_apart(es.remove(i), b),
        forall|b: Seq<Entry>| opers_apart(b, es) ==> opers_apart(b, es.remove(i)),
{
    let r = es.remove(i);
    assert forall|k: int| 0 <= k < r.len() implies r[k] == es[if k < i { k } else { k + 1 }] by {}
    assert forall|k: int| 0 <= k < r.len() implies (#[trigger] r[k]).packet == r[k].oper.0
        && has_packet(ps, r[k].packet, sending) by {
        let k0 = if k < i { k } else { k + 1 };
        assert(r[k] == es[k0]);
    }
    assert forall|a: int, b: int| 0 <= a < r.len() && 0 <= b < r.len() && a != b implies (
    #[trigger] r[a]).oper != (#[trigger] r[b]).oper by {
        let a0 = if a < i { a } else { a + 1 };
        let b0 = if b < i { b } else { b + 1 };
        assert(r[a] == es[a0] && r[b] == es[b0]);
    }
    assert forall|k: int| 0 <= k < r.len() implies (#[trigger] r[k]).oper.0 != es[i].oper.0 by {
        let k0 = if k < i { k } else { k + 1 };
        assert(r[k] == es[k0]);
        assert(es[k0].oper != es[i].oper);
    }
    assert forall|id: usize| no_entry::<T>(es, id) implies no_entry::<T>(r, id) by {
        assert forall|k: int| 0 <= k < r.len() implies (#[trigger] r[k]).oper.0 != id by {
            let k0 = if k < i { k } else { k + 1 };
            assert(r[k] == es[k0]);
        }
    }
    assert forall|b: Seq<Entry>| opers_apart(es, b) implies opers_apart(r, b) by {
        assert forall|x: int, y: int| 0 <= x < r.len() && 0 <= y < b.len() implies (#[trigger] r[x]).oper
            != (#[trigger] b[y]).oper by {
            let x0 = if x < i { x } else { x + 1 };
            assert(r[x] == es[x0]);
        }
    }
    assert forall|b: Seq<Entry>| opers_apart(b, es) implies opers_apart(b, r) by {
        assert forall|x: int, y: int| 0 <= x < b.len() && 0 <= y < r.len() implies (#[trigger] b[x]).oper
            != (#[trigger] r[y]).oper by {
            let y0 = if y < i { y } else { y + 1 };
            assert(r[y] == es[y0]);
        }
    }
}

proof fn lemma_entries_push<T>(es: Seq<Entry>, ps: Seq<Packet<T>>, sending: bool, e: Entry, j: int)
    requires
        entries_backed(es, ps, sending),
        opers_distinct(es),
        no_entry::<T>(es, e.oper.0),
        e.packet == e.oper.0,
        packet_for(ps, e.packet, sending, j),
    ensures
        entries_backed(es.push(e), ps, sending),
        opers_distinct(es.push(e)),
        forall|b: Seq<Entry>| opers_apart(es, b) && no_entry::<T>(b, e.oper.0) ==> opers_apart(es.push(e), b),
        forall|b: Seq<Entry>| opers_apart(b, es) && no_entry::<T>(b, e.oper.0) ==> opers_apart(b, es.push(e)),
{
    let r = es.push(e);
    assert forall|i: int| 0 <= i < r.len() implies (#[trigger] r[i]).packet == r[i].oper.0
        && has_packet(ps, r[i].packet, sending) by {
        if i == es.len() {
            assert(packet_for(ps, r[i].packet, sending, j));
        } else {
            assert(r[i] == es[i]);
        }
    }
    assert forall|a: int, b: int| 0 <= a < r.len() && 0 <= b < r.len() && a != b implies (
    #[trigger] r[a]).oper != (#[trigger] r[b]).oper by {
        if a == es.len() {
            assert(es[b].oper.0 != e.oper.0);
        } else if b == es.len() {
            assert(es[a].oper.0 != e.oper.0);
        }
    }
    assert forall|b: Seq<Entry>| opers_apart(es, b) && no_entry::<T>(b, e.oper.0) implies opers_apart(r, b) by {
        assert forall|x: int, y: int| 0 <= x < r.len() && 0 <= y < b.len() implies (#[trigger] r[x]).oper
            != (#[trigger] b[y]).oper by {
            if x == es.len() {
                assert(b[y].oper.0 != e.oper.0);
            }
        }
    }
    assert forall|b: Seq<Entry>| opers_apart(b, es) && no_entry::<T>(b, e.oper.0) implies opers_apart(b, r) by {
        assert forall|x: int, y: int| 0 <= x < b.len() && 0 <= y < r.len() implies (#[trigger] b[x]).oper
            != (#[trigger] r[y]).oper by {
            if y == es.len() {
                assert(b[x].oper.0 != e.oper.0);
            }
        }
    }
}

/// `new` lists the same operations and packets as `old`, in the same order.
pub open spec fn same_ids(old: Seq<Entry>, new: Seq<Entry>) -> bool {
    &&& new.len() == old.len()
    &&& forall|i: int| 0 <= i < old.len() ==> (#[trigger] new[i]).oper == old[i].oper && new[i].packet == old[i].packet
}

proof fn lemma_same_ids<T>(es: Seq<Entry>, es2: Seq<Entry>, ps: Seq<Packet<T>>, sending: bool, other: Seq<Entry>)
    requires
        same_ids(es, es2),
        entries_backed(es, ps, sending),
        opers_distinct(es),
    ensures
        entries_backed(es2, ps, sending),
        opers_distinct(es2),
        opers_apart(es, other) ==> opers_apart(es2, other),
        opers_apart(other, es) ==> opers_apart(other, es2),
{
    assert forall|i: int| 0 <= i < es2.len() implies (#[trigger] es2[i]).packet == es2[i].oper.0
        && has_packet(ps, es2[i].packet, sending) by {
        assert(es[i].packet == es[i].oper.0 && has_packet(ps, es[i].packet, sending));
    }
    assert forall|a: int, b: int| 0 <= a < es2.len() && 0 <= b < es2.len() && a != b implies (
    #[trigger] es2[a]).oper != (#[trigger] es2[b]).oper by {
        assert(es[a].oper != es[b].oper);
    }
    if opers_apart(es, other) {
        assert forall|x: int, y: int| 0 <= x < es2.len() && 0 <= y < other.len() implies (#[trigger] es2[x]).oper
            != (#[trigger] other[y]).oper by {
            assert(es[x].oper != other[y].oper);
        }
    }
    if opers_apart(other, es) {
        assert forall|x: int, y: int| 0 <= x < other.len() && 0 <= y < es2.len() implies (#[trigger] other[x]).oper
            != (#[trigger] es2[y]).oper by {
            assert(other[x].oper != es[y].oper);
        }
    }
}

/// After an unregistration of `oper` (which found an entry or did not), no
/// entry carries its id and everything else still holds.
proof fn lemma_unregistered<T>(
    es: Seq<Entry>,
    es2: Seq<Entry>,
    ps: Seq<Packet<T>>,
    sending: bool,
    oper: Operation,
    found: bool,
)
    requires
        entries_backed(es, ps, sending),
        opers_distinct(es),
        !found ==> es2 == es && forall|i: int| 0 <= i < es.len() ==> (#[trigger] es[i]).oper != oper,
        found ==> exists|i: int| 0 <= i < es.len() && es[i].oper == oper && es2 == es.remove(i),
    ensures
        entries_backed(es2, ps, sending),
        opers_distinct(es2),
        no_entry::<T>(es2, oper.0),
        forall|id: usize| no_entry::<T>(es, id) ==> no_entry::<T>(es2, id),
        forall|b: Seq<Entry>| opers_apart(es, b) ==> opers_apart(es2, b),
        forall|b: Seq<Entry>| opers_apart(b, es) ==> opers_apart(b, es2),
{
    if found {
        let i = choose|i: int| 0 <= i < es.len() && es[i].oper == oper && es2 == es.remove(i);
        lemma_entries_remove(es, ps, sending, i);
    } else {
        assert forall|i: int| 0 <= i < es.len() implies (#[trigger] es[i]).oper.0 != oper.0 by {
            assert(es[i].oper != oper);
        }
    }
}

/// What `Channel::try_send` does: the message goes into the packet of the
/// first receive that `caller` may choose (which leaves its registry and
/// whose packet becomes ready), exactly when one waits; otherwise nothing
/// changes and the message comes back with `Full`, or `Disconnected`.
pub open spec fn sent_to_receiver<T>(pre: Channel<T>, post: Channel<T>, msg: T, caller: usize, r: Result<(), TrySendError<T>>) -> bool {
    &&& post.disconnected() == pre.disconnected()
    &&& post.senders() == pre.senders()
    &&& r matches Err(e) ==> e.spec_message() == msg
    &&& pre.receiver_waits(caller) <==> r is Ok
    &&& (forall|i: int| 0 <= i < pre.receivers().len() ==> !eligible(
        #[trigger] pre.receivers()[i], caller)) ==> post.receivers() == pre.receivers()
        && post.packets() == pre.packets()
        && r == Err::<(), _>(if pre.disconnected() {
        TrySendError::Disconnected(msg)
        } else {
        TrySendError::Full(msg)
        })
    &&& r is Ok ==> exists|i: int, j: int|
        0 <= i < pre.receivers().len() && eligible(pre.receivers()[i], caller)
        && post.receivers() == pre.receivers().remove(i)
        && packet_for(pre.packets(), pre.receivers()[i].packet, false, j)
        && post.packets().len() == pre.packets().len()
        && post.packets()[j].id() == pre.packets()[j].id()
        && post.packets()[j].is_ready() && post.packets()[j].msg() == Some(msg)
        && forall|k: int| 0 <= k < pre.packets().len() && k != j ==> #[trigger] post.packets()[k] == pre.packets()[k]
}

/// What `Channel::try_recv` does: the message is taken from the packet of
/// the first send that `caller` may choose (which leaves its registry and
/// whose packet becomes ready and empty), exactly when one waits; otherwise
/// nothing changes and the receive fails with `Empty`, or `Disconnected`.
pub open spec fn taken_from_sender<T>(pre: Channel<T>, post: Channel<T>, caller: usize, r: Result<T, TryRecvError>) -> bool {
    &&& post.disconnected() == pre.disconnected()
    &&& post.receivers() == pre.receivers()
    &&& pre.sender_waits(caller) <==> r is Ok
    &&& (forall|i: int| 0 <= i < pre.senders().len() ==> !eligible(
        #[trigger] pre.senders()[i], caller)) ==> post.senders() == pre.senders()
        && post.packets() == pre.packets()
        && r == Err::<T, _>(if pre.disconnected() {
        TryRecvError::Disconnected
        } else {
        TryRecvError::Empty
        })
    &&& r matches Ok(m) ==> exists|i: int, j: int|
        0 <= i < pre.senders().len() && eligible(pre.senders()[i], caller)
        && post.senders() == pre.senders().remove(i)
        && packet_for(pre.packets(), pre.senders()[i].packet, true, j)
        && pre.packets()[j].msg() == Some(m)
        && post.packets().len() == pre.packets().len()
        && post.packets()[j].id() == pre.packets()[j].id()
        && post.packets()[j].is_ready() && post.packets()[j].msg() is None
        && forall|k: int| 0 <= k < pre.packets().len() && k != j ==> #[trigger] post.packets()[k] == pre.packets()[k]
}

/// What `Channel::register_send` does: one more registered send, last in
/// its registry and waiting, whose new packet holds the message.
pub open spec fn send_registered<T>(pre: Channel<T>, post: Channel<T>, oper: Operation, msg: T) -> bool {
    &&& post.disconnected() == pre.disconnected()
    &&& post.receivers() == pre.receivers()
    &&& post.senders().len() == pre.senders().len() + 1
    &&& post.senders().drop_last() == pre.senders()
    &&& post.senders().last().oper == oper
    &&& post.senders().last().packet == oper.0
    &&& post.senders().last().cx.selected() is Waiting
    &&& post.senders().last().cx.owner() == oper.0
    &&& post.packets().len() == pre.packets().len() + 1
    &&& post.packets().drop_last() == pre.packets()
    &&& post.packets().last().id() == oper.0
    &&& !post.packets().last().is_ready()
    &&& post.packets().last().msg() == Some(msg)
}

/// What `Channel::register_recv` does: one more registered receive, last in
/// its registry and waiting, with a new empty packet.
pub open spec fn recv_registered<T>(pre: Channel<T>, post: Channel<T>, oper: Operation) -> bool {
    &&& post.disconnected() == pre.disconnected()
    &&& post.senders() == pre.senders()
    &&& post.receivers().len() == pre.receivers().len() + 1
    &&& post.receivers().drop_last() == pre.receivers()
    &&& post.receivers().last().oper == oper
    &&& post.receivers().last().packet == oper.0
    &&& post.receivers().last().cx.selected() is Waiting
    &&& post.receivers().last().cx.owner() == oper.0
    &&& post.packets().len() == pre.packets().len() + 1
    &&& post.packets().drop_last() == pre.packets()
    &&& post.packets().last().id() == oper.0
    &&& !post.packets().last().is_ready()
    &&& post.packets().last().msg() is None
}

/// What `Channel::poll_send` does for registered send `oper`: `Ok` and the
/// packet gone once a receive made it ready; the message back with
/// `Disconnected`, packet gone, on a disconnected channel; else nothing
/// changes and it still waits.
pub open spec fn send_looked_at<T>(pre: Channel<T>, post: Channel<T>, oper: Operation, r: Option<Result<(), SendTimeoutError<T>>>) -> bool {
    &&& post.disconnected() == pre.disconnected()
    &&& (forall|j: int| 0 <= j < pre.packets().len() ==> (#[trigger] pre.packets()[j]).id() != oper.0)
        ==> r == Some(Ok::<(), SendTimeoutError<T>>(())) && post.packets() == pre.packets()
    &&& forall|j: int| 0 <= j < pre.packets().len() && (#[trigger] pre.packets()[j]).id() == oper.0 ==> {
        &&& pre.packets()[j].is_ready() ==> r == Some(Ok::<(), SendTimeoutError<T>>(()))
        && post.packets() == pre.packets().remove(j)
        &&& !pre.packets()[j].is_ready() && pre.disconnected() ==> post.packets()
        == pre.packets().remove(j) && (pre.packets()[j].msg() matches Some(m) ==> r
        == Some(Err::<(), _>(SendTimeoutError::Disconnected(m))))
        &&& !pre.packets()[j].is_ready() && !pre.disconnected() ==> r is None
        && post == pre
    }
}

/// What `Channel::abort_send` does for registered send `oper`: its packet
/// goes; `Ok` if a receive had made it ready, else the message back with
/// `Timeout` (or `Disconnected`).
pub open spec fn send_withdrawn<T>(pre: Channel<T>, post: Channel<T>, oper: Operation, r: Result<(), SendTimeoutError<T>>) -> bool {
    &&& post.disconnected() == pre.disconnected()
    &&& (forall|j: int| 0 <= j < pre.packets().len() ==> (#[trigger] pre.packets()[j]).id() != oper.0)
        ==> r is Ok && post.packets() == pre.packets()
    &&& forall|j: int| 0 <= j < pre.packets().len() && (#[trigger] pre.packets()[j]).id() == oper.0 ==> {
        &&& post.packets() == pre.packets().remove(j)
        &&& pre.packets()[j].is_ready() ==> r is Ok
        &&& !pre.packets()[j].is_ready() ==> (pre.packets()[j].msg() matches Some(m) ==> r
        == Err::<(), _>(if pre.disconnected() {
        SendTimeoutError::Disconnected(m)
        } else {
        SendTimeoutError::Timeout(m)
        }))
    }
}

/// What `Channel::poll_recv` does for registered receive `oper`: the
/// message, packet gone, once a send made it ready; `Disconnected`, packet
/// gone, on a disconnected channel; else nothing changes and it still waits.
pub open spec fn recv_looked_at<T>(pre: Channel<T>, post: Channel<T>, oper: Operation, r: Option<Result<T, RecvTimeoutError>>) -> bool {
    &&& post.disconnected() == pre.disconnected()
    &&& (forall|j: int| 0 <= j < pre.packets().len() ==> (#[trigger] pre.packets()[j]).id() != oper.0)
        ==> r == Some(Err::<T, _>(RecvTimeoutError::Disconnected)) && post.packets() == pre.packets()
    &&& forall|j: int| 0 <= j < pre.packets().len() && (#[trigger] pre.packets()[j]).id() == oper.0 ==> {
        &&& pre.packets()[j].is_ready() ==> post.packets() == pre.packets().remove(j)
        && (pre.packets()[j].msg() matches Some(m) ==> r == Some(Ok::<T, RecvTimeoutError>(m)))
        &&& !pre.packets()[j].is_ready() && pre.disconnected() ==> post.packets()
        == pre.packets().remove(j) && r == Some(Err::<T, _>(RecvTimeoutError::Disconnected))
        &&& !pre.packets()[j].is_ready() && !pre.disconnected() ==> r is None
        && post == pre
    }
}

/// What `Channel::abort_recv` does for registered receive `oper`: its packet
/// goes; the message if a send had made it ready, else `Timeout` (or
/// `Disconnected`).
pub open spec fn recv_withdrawn<T>(pre: Channel<T>, post: Channel<T>, oper: Operation, r: Result<T, RecvTimeoutError>) -> bool {
    &&& post.disconnected() == pre.disconnected()
    &&& (forall|j: int| 0 <= j < pre.packets().len() ==> (#[trigger] pre.packets()[j]).id() != oper.0)
        ==> r == Err::<T, _>(RecvTimeoutError::Disconnected) && post.packets() == pre.packets()
    &&& forall|j: int| 0 <= j < pre.packets().len() && (#[trigger] pre.packets()[j]).id() == oper.0 ==> {
        &&& post.packets() == pre.packets().remove(j)
        &&& pre.packets()[j].is_ready() ==> (pre.packets()[j].msg() matches Some(m) ==> r == Ok::<T, RecvTimeoutError>(m))
        &&& !pre.packets()[j].is_ready() ==> r == Err::<T, _>(if pre.disconnected() {
        RecvTimeoutError::Disconnected
        } else {
        RecvTimeoutError::Timeout
        })
    }
}

impl<T> Channel<T> {
    /// The registered senders.
    pub closed spec fn senders(&self) -> Seq<Entry> {
        self.senders.selectors()
    }

    /// The registered receivers.
    pub closed spec fn receivers(&self) -> Seq<Entry> {
        self.receivers.selectors()
    }

    /// The packets of operations that have not collected their outcome yet.
    pub closed spec fn packets(&self) -> Seq<Packet<T>> {
        self.packets@
    }

    /// Whether the channel is disconnected.
    pub closed spec fn disconnected(&self) -> bool {
        self.is_disconnected
    }

    /// Well-formedness: both registries are; the next operation id is above
    /// 2; packets carry distinct ids; every registered operation has a
    /// distinct id and exposes the waiting packet named by it, which holds
    /// the message of a send and nothing for a receive.
    pub closed spec fn wf(&self) -> bool {
        &&& self.senders.wf()
        &&& self.receivers.wf()
        &&& self.next_oper > 2
        &&& forall|j: int, k: int|
            0 <= j < self.packets@.len() && 0 <= k < self.packets@.len() && (#[trigger] self.packets@[j]).id
                == (#[trigger] self.packets@[k]).id ==> j == k
        &&& entries_backed(self.senders(), self.packets(), true)
        &&& entries_backed(self.receivers(), self.packets(), false)
        &&& opers_distinct(self.senders())
        &&& opers_distinct(self.receivers())
        &&& opers_apart(self.senders(), self.receivers())
    }

    /// Whether a registered receive that `caller` may choose still waits.
    pub open spec fn receiver_waits(&self, caller: usize) -> bool {
        exists|i: int| 0 <= i < self.receivers().len() && eligible(#[trigger] self.receivers()[i], caller)
    }

    /// Whether a registered send that `caller` may choose still waits.
    pub open spec fn sender_waits(&self, caller: usize) -> bool {
        exists|i: int| 0 <= i < self.senders().len() && eligible(#[trigger] self.senders()[i], caller)
    }

    /// Whether some registered operation or packet carries id `id`.
    pub closed spec fn in_use(&self, id: usize) -> bool {
        ||| exists|i: int| 0 <= i < self.senders().len() && (#[trigger] self.senders()[i]).oper.0 == id
        ||| exists|i: int| 0 <= i < self.receivers().len() && (#[trigger] self.receivers()[i]).oper.0 == id
        ||| exists|j: int| 0 <= j < self.packets().len() && (#[trigger] self.packets()[j]).id() == id
    }

    /// A fresh, connected channel with nobody waiting.
    pub fn new() -> (r: Self)
        ensures
            r.wf(),
            r.senders() == Seq::<Entry>::empty(),
            r.receivers() == Seq::<Entry>::empty(),
            r.packets() == Seq::<Packet<T>>::empty(),
            !r.disconnected(),
    {
        Channel {
            senders: Waker::new(),
            receivers: Waker::new(),
            packets: Vec::new(),
            is_disconnected: false,
            next_oper: 3,
        }
    }

    /// Position of the first packet with id `id`.
    fn find_packet(&self, id: usize) -> (r: Option<usize>)
        ensures
            r matches Some(j) ==> j < self.packets().len() && self.packets()[j as int].id() == id,
            r is None ==> forall|j: int| 0 <= j < self.packets().len() ==> (#[trigger] self.packets()[j]).id() != id,
    {
        let mut j: usize = 0;
        while j < self.packets.len()
            invariant
                j <= self.packets@.len(),
                forall|k: int| 0 <= k < j ==> (#[trigger] self.packets@[k]).id() != id,
            decreases self.packets@.len() - j,
        {
            if self.packets[j].id == id {
                return Some(j);
            }
            j = j + 1;
        }
        None
    }

    /// Position of the first entry of operation `oper` in `w`.
    fn find_entry(w: &Waker, oper: Operation) -> (r: Option<usize>)
        requires
            w.wf(),
        ensures
            r matches Some(i) ==> i < w.selectors().len() && w.selectors()[i as int].oper == oper,
            r is None ==> forall|i: int| 0 <= i < w.selectors().len() ==> (#[trigger] w.selectors()[i]).oper != oper,
    {
        w.position(oper)
    }

    /// Whether id `id` is taken by a registered operation or a packet.
    fn id_in_use(&self, id: usize) -> (r: bool)
        requires
            self.wf(),
        ensures
            r == self.in_use(id),
    {
        if let Some(i) = Self::find_entry(&self.senders, Operation(id)) {
            assert(self.senders()[i as int].oper.0 == id);
            return true;
        }
        if let Some(i) = Self::find_entry(&self.receivers, Operation(id)) {
            assert(self.receivers()[i as int].oper.0 == id);
            return true;
        }
        if let Some(j) = self.find_packet(id) {
            return true;
        }
        assert forall|i: int| 0 <= i < self.senders().len() implies (#[trigger] self.senders()[i]).oper.0 != id by {
            assert(self.senders()[i].oper != Operation(id));
        }
        assert forall|i: int| 0 <= i < self.receivers().len() implies (#[trigger] self.receivers()[i]).oper.0 != id by {
            assert(self.receivers()[i].oper != Operation(id));
        }
        false
    }

    /// Whether an operation id that nothing carries can be found: there are
    /// fewer packets than candidate ids.
    pub open spec fn has_free_id(&self) -> bool {
        self.packets().len() + 4 < usize::MAX
    }

    /// Every id in use is the id of a packet.
    proof fn lemma_in_use_is_packet(&self, k: usize)
        requires
            self.wf(),
            self.in_use(k),
        ensures
            exists|j: int| 0 <= j < self.packets().len() && (#[trigger] self.packets()[j]).id() == k,
    {
        if exists|i: int| 0 <= i < self.senders().len() && (#[trigger] self.senders()[i]).oper.0 == k {
            let i = choose|i: int| 0 <= i < self.senders().len() && (#[trigger] self.senders()[i]).oper.0 == k;
            assert(has_packet(self.packets(), self.senders()[i].packet, true));
            let j = choose|j: int| packet_for(self.packets(), self.senders()[i].packet, true, j);
            assert(self.packets()[j].id() == k);
        } else if exists|i: int| 0 <= i < self.receivers().len() && (#[trigger] self.receivers()[i]).oper.0 == k {
            let i = choose|i: int| 0 <= i < self.receivers().len() && (#[trigger] self.receivers()[i]).oper.0 == k;
            assert(has_packet(self.packets(), self.receivers()[i].packet, false));
            let j = choose|j: int| packet_for(self.packets(), self.receivers()[i].packet, false, j);
            assert(self.packets()[j].id() == k);
        }
    }

    /// Among the ids 3 to 3 + n, with n packets, one is free.
    proof fn lemma_some_id_free(&self)
        requires
            self.wf(),
            self.has_free_id(),
        ensures
            exists|k: usize| 3 <= k <= 3 + self.packets().len() && !#[trigger] self.in_use(k),
    {
        let n = self.packets().len() as int;
        if forall|k: usize| 3 <= k <= 3 + n ==> #[trigger] self.in_use(k) {
            let ids = self.packets().map_values(|p: Packet<T>| p.id() as int);
            assert forall|k: int| #[trigger] set_int_range(3, 4 + n).contains(k) implies ids.to_set().contains(k) by {
                assert(self.in_use(k as usize));
                self.lemma_in_use_is_packet(k as usize);
                let j = choose|j: int| 0 <= j < self.packets().len() && (#[trigger] self.packets()[j]).id() == k as usize;
                assert(ids[j] == k);
            }
            lemma_int_range(3, 4 + n);
            seq_to_set_is_finite(ids);
            lemma_len_subset(set_int_range(3, 4 + n), ids.to_set());
            ids.lemma_cardinality_of_set();
        }
    }

    /// Hands out an operation id that nothing carries, the least one from 3
    /// on; `None` only when there are too many packets for a free id to be
    /// sure to exist.
    pub fn fresh_oper(&mut self) -> (r: Option<Operation>)
        requires
            old(self).wf(),
        ensures
            final(self).wf(),
            final(self).senders() == old(self).senders(),
            final(self).receivers() == old(self).receivers(),
            final(self).packets() == old(self).packets(),
            final(self).disconnected() == old(self).disconnected(),
            final(self).has_free_id() == old(self).has_free_id(),
            r matches Some(o) ==> o.0 > 2 && !final(self).in_use(o.0),
            r is Some <==> old(self).has_free_id(),
    {
        if self.packets.len() >= usize::MAX - 4 {
            return None;
        }
        let mut id: usize = 3;
        while self.id_in_use(id)
            invariant
                self.wf(),
                self.has_free_id(),
                3 <= id <= 3 + self.packets@.len(),
                forall|k: usize| 3 <= k < id ==> #[trigger] self.in_use(k),
            decreases 3 + self.packets@.len() - id,
        {
            proof {
                if id == 3 + self.packets@.len() {
                    self.lemma_some_id_free();
                    let k = choose|k: usize| 3 <= k <= 3 + self.packets().len() && !#[trigger] self.in_use(k);
                    assert(k < id || k == id);
                }
            }
            id = id + 1;
        }
        Some(Operation::hook(id))
    }

    /// Pairs with the first receiver that `caller` may choose and puts the
    /// message in its packet, which is then ready; there is one exactly when
    /// such a receiver waits. Without one, the message comes back: `Full`, or
    /// `Disconnected` once the channel is disconnected.
    pub fn try_send(&mut self, msg: T, caller: usize) -> (r: Result<(), TrySendError<T>>)
        requires
            old(self).wf(),
        ensures
            final(self).wf(),
            sent_to_receiver(*old(self), *final(self), msg, caller, r),
    {
        let ghost old_recv = self.receivers();
        let ghost ps = self.packets();
        match self.receivers.try_select(caller) {
            Some(e) => {
                let ghost i = choose|i: int|
                    0 <= i < old_recv.len() && eligible(old_recv[i], caller) && chosen(old_recv[i], e)
                        && self.receivers() == old_recv.remove(i) && forall|j: int|
                        0 <= j < i ==> !eligible(#[trigger] old_recv[j], caller);
                proof {
                    lemma_entries_remove(old_recv, ps, false, i);
                }
                let ghost w = choose|w: int| packet_for(ps, old_recv[i].packet, false, w);
                match self.find_packet(e.packet) {
                    Some(j) => {
                        assert(j == w);
                        let mut p = Packet::empty_on_stack(0);
                        std::mem::swap(&mut p, &mut self.packets[j]);
                        p.msg = Some(msg);
                        p.ready = true;
                        std::mem::swap(&mut p, &mut self.packets[j]);
                        proof {
                            let np = self.packets@[j as int];
                            assert(self.packets@ == ps.update(j as int, np));
                            assert forall|k: int| 0 <= k < self.senders().len() implies (#[trigger] self.senders()[k]).oper.0 != ps[j as int].id() by {
                                assert(self.senders()[k].oper != old_recv[i].oper);
                            }
                            lemma_backed_update(self.senders(), ps, true, j as int, np);
                            lemma_backed_update(self.receivers(), ps, false, j as int, np);
                            assert forall|x: int, y: int|
                                0 <= x < self.packets@.len() && 0 <= y < self.packets@.len() && (#[trigger] self.packets@[x]).id
                                    == (#[trigger] self.packets@[y]).id implies x == y by {
                                assert(ps[x].id == self.packets@[x].id && ps[y].id == self.packets@[y].id);
                            }
                            assert(forall|k: int| 0 <= k < ps.len() && k != j ==> #[trigger] self.packets()[k] == ps[k]);
                        }
                        Ok(())
                    },
                    None => {
                        assert(ps[w].id() == e.packet);
                        Err(TrySendError::Full(msg))
                    },
                }
            },
            None => {
                if self.is_disconnected {
                    Err(TrySendError::Disconnected(msg))
                } else {
                    Err(TrySendError::Full(msg))
                }
            },
        }
    }

    /// Pairs with the first sender that `caller` may choose and takes the
    /// message from its packet, which is then ready and empty; there is one
    /// exactly when such a sender waits. Without one: `Empty`, or
    /// `Disconnected` once the channel is disconnected.
    pub fn try_recv(&mut self, caller: usize) -> (r: Result<T, TryRecvError>)
        requires
            old(self).wf(),
        ensures
            final(self).wf(),
            taken_from_sender(*old(self), *final(self), caller, r),
    {
        let ghost old_send = self.senders();
        let ghost ps = self.packets();
        match self.senders.try_select(caller) {
            Some(e) => {
                let ghost i = choose|i: int|
                    0 <= i < old_send.len() && eligible(old_send[i], caller) && chosen(old_send[i], e)
                        && self.senders() == old_send.remove(i) && forall|j: int|
                        0 <= j < i ==> !eligible(#[trigger] old_send[j], caller);
                proof {
                    lemma_entries_remove(old_send, ps, true, i);
                }
                let ghost w = choose|w: int| packet_for(ps, old_send[i].packet, true, w);
                match self.find_packet(e.packet) {
                    Some(j) => {
                        assert(j == w);
                        let mut p = Packet::empty_on_stack(0);
                        std::mem::swap(&mut p, &mut self.packets[j]);
                        let mut taken: Option<T> = None;
                        std::mem::swap(&mut taken, &mut p.msg);
                        p.ready = true;
                        std::mem::swap(&mut p, &mut self.packets[j]);
                        proof {
                            let np = self.packets@[j as int];
                            assert(self.packets@ == ps.update(j as int, np));
                            assert forall|k: int| 0 <= k < self.receivers().len() implies (#[trigger] self.receivers()[k]).oper.0 != ps[j as int].id() by {
                                assert(self.receivers()[k].oper != old_send[i].oper);
                            }
                            lemma_backed_update(self.senders(), ps, true, j as int, np);
                            lemma_backed_update(self.receivers(), ps, false, j as int, np);
                            assert forall|x: int, y: int|
                                0 <= x < self.packets@.len() && 0 <= y < self.packets@.len() && (#[trigger] self.packets@[x]).id
                                    == (#[trigger] self.packets@[y]).id implies x == y by {
                                assert(ps[x].id == self.packets@[x].id && ps[y].id == self.packets@[y].id);
                            }
                            assert(forall|k: int| 0 <= k < ps.len() && k != j ==> #[trigger] self.packets()[k] == ps[k]);
                            assert(taken == ps[j as int].msg());
                        }
                        match taken {
                            Some(m) => Ok(m),
                            None => Err(TryRecvError::Disconnected),
                        }
                    },
                    None => {
                        assert(ps[w].id() == e.packet);
                        Err(TryRecvError::Disconnected)
                    },
                }
            },
            None => {
                if self.is_disconnected {
                    Err(TryRecvError::Disconnected)
                } else {
                    Err(TryRecvError::Empty)
                }
            },
        }
    }

    /// Registers a blocked send of operation `oper`, whose packet holds the
    /// message until a receiver takes it.
    pub fn register_send(&mut self, oper: Operation, msg: T)
        requires
            old(self).wf(),
            oper.0 > 2,
            !old(self).in_use(oper.0),
        ensures
            final(self).wf(),
            send_registered(*old(self), *final(self), oper, msg),
    {
        self.register_packet(Packet::message_on_stack(oper.0, msg));
        let ghost ps = self.packets();
        let ghost ss = self.senders();
        let cx = Context::new(oper.0);
        self.senders.register_with_packet(oper, oper.0, cx);
        proof {
            let e = Entry { oper, packet: oper.0, cx };
            assert(self.senders() == ss.push(e));
            lemma_entries_push(ss, ps, true, e, ps.len() - 1);
        }
        assert(self.senders().drop_last() =~= old(self).senders());
        assert(self.packets().drop_last() =~= old(self).packets());
        assert(send_registered(*old(self), *self, oper, msg));
    }

    /// Registers a blocked receive of operation `oper`, with an empty packet.
    pub fn register_recv(&mut self, oper: Operation)
        requires
            old(self).wf(),
            oper.0 > 2,
            !old(self).in_use(oper.0),
        ensures
            final(self).wf(),
            recv_registered(*old(self), *final(self), oper),
    {
        self.register_packet(Packet::empty_on_stack(oper.0));
        let ghost ps = self.packets();
        let ghost rs = self.receivers();
        let cx = Context::new(oper.0);
        self.receivers.register_with_packet(oper, oper.0, cx);
        proof {
            let e = Entry { oper, packet: oper.0, cx };
            assert(self.receivers() == rs.push(e));
            lemma_entries_push(rs, ps, false, e, ps.len() - 1);
        }
        assert(self.receivers().drop_last() =~= old(self).receivers());
        assert(self.packets().drop_last() =~= old(self).packets());
        assert(recv_registered(*old(self), *self, oper));
    }

    fn register_packet(&mut self, p: Packet<T>)
        requires
            old(self).wf(),
            !old(self).in_use(p.id()),
        ensures
            final(self).wf(),
            final(self).senders() == old(self).senders(),
            final(self).receivers() == old(self).receivers(),
            final(self).disconnected() == old(self).disconnected(),
            final(self).packets() == old(self).packets().push(p),
            no_entry::<T>(old(self).senders(), p.id()),
            no_entry::<T>(old(self).receivers(), p.id()),
    {
        let ghost old_packets = self.packets@;
        assert forall|j: int| 0 <= j < old_packets.len() implies (#[trigger] old_packets[j]).id != p.id by {
            if old_packets[j].id == p.id {
                assert(self.packets()[j].id() == p.id());
            }
        }
        self.packets.push(p);
        proof {
            lemma_backed_push(old(self).senders(), old_packets, true, p);
            lemma_backed_push(old(self).receivers(), old_packets, false, p);
        }
        assert forall|i: int| 0 <= i < old(self).senders().len() implies (#[trigger] old(self).senders()[i]).oper.0 != p.id() by {
            if old(self).senders()[i].oper.0 == p.id() {
                assert(old(self).in_use(p.id()));
            }
        }
        assert forall|i: int| 0 <= i < old(self).receivers().len() implies (#[trigger] old(self).receivers()[i]).oper.0 != p.id() by {
            if old(self).receivers()[i].oper.0 == p.id() {
                assert(old(self).in_use(p.id()));
            }
        }
    }

    /// Removes the ready packet `j`, whose operation is registered nowhere.
    fn collect(&mut self, j: usize) -> (r: Packet<T>)
        requires
            old(self).wf(),
            j < old(self).packets().len(),
            old(self).packets()[j as int].is_ready(),
        ensures
            final(self).wf(),
            final(self).disconnected() == old(self).disconnected(),
            final(self).senders() == old(self).senders(),
            final(self).receivers() == old(self).receivers(),
            final(self).packets() == old(self).packets().remove(j as int),
            r == old(self).packets()[j as int],
    {
        let ghost ps = self.packets();
        proof {
            let id = ps[j as int].id();
            assert forall|k: int| 0 <= k < self.senders().len() implies (#[trigger] self.senders()[k]).oper.0 != id by {
                if self.senders()[k].oper.0 == id {
                    let w = choose|w: int| packet_for(ps, self.senders()[k].packet, true, w);
                    assert(self.packets@[w].id == self.packets@[j as int].id);
                }
            }
            assert forall|k: int| 0 <= k < self.receivers().len() implies (#[trigger] self.receivers()[k]).oper.0 != id by {
                if self.receivers()[k].oper.0 == id {
                    let w = choose|w: int| packet_for(ps, self.receivers()[k].packet, false, w);
                    assert(self.packets@[w].id == self.packets@[j as int].id);
                }
            }
            lemma_backed_remove(self.senders(), ps, true, j as int);
            lemma_backed_remove(self.receivers(), ps, false, j as int);
        }
        let p = self.packets.remove(j);
        proof {
            self.lemma_ids_after_remove(ps, j as int);
        }
        p
    }

    /// Removes packet `j` and every registration of its operation `oper`; a
    /// disconnect is passed on to the registries.
    fn withdraw(&mut self, j: usize, oper: Operation) -> (r: Packet<T>)
        requires
            old(self).wf(),
            j < old(self).packets().len(),
            old(self).packets()[j as int].id() == oper.0,
        ensures
            final(self).wf(),
            final(self).disconnected() == old(self).disconnected(),
            final(self).packets() == old(self).packets().remove(j as int),
            r == old(self).packets()[j as int],
    {
        let ghost ps = self.packets();
        let ghost ss = self.senders();
        let ghost rs = self.receivers();
        let a = self.senders.unregister(oper);
        proof {
            lemma_unregistered(ss, self.senders(), ps, true, oper, a is Some);
        }
        let ghost ss2 = self.senders();
        let b = self.receivers.unregister(oper);
        proof {
            lemma_unregistered(rs, self.receivers(), ps, false, oper, b is Some);
            assert(opers_apart(ss2, rs));
            lemma_backed_remove(self.senders(), ps, true, j as int);
            lemma_backed_remove(self.receivers(), ps, false, j as int);
        }
        let p = self.packets.remove(j);
        proof {
            self.lemma_ids_after_remove(ps, j as int);
        }
        if self.is_disconnected {
            self.tell_disconnected();
        }
        p
    }

    proof fn lemma_ids_after_remove(&self, ps: Seq<Packet<T>>, j: int)
        requires
            0 <= j < ps.len(),
            self.packets() == ps.remove(j),
            forall|a: int, b: int|
                0 <= a < ps.len() && 0 <= b < ps.len() && (#[trigger] ps[a]).id == (#[trigger] ps[b]).id ==> a == b,
        ensures
            forall|a: int, b: int|
                0 <= a < self.packets@.len() && 0 <= b < self.packets@.len() && (#[trigger] self.packets@[a]).id
                    == (#[trigger] self.packets@[b]).id ==> a == b,
    {
        assert forall|a: int, b: int|
            0 <= a < self.packets@.len() && 0 <= b < self.packets@.len() && (#[trigger] self.packets@[a]).id
                == (#[trigger] self.packets@[b]).id implies a == b by {
            let a0 = if a < j { a } else { a + 1 };
            let b0 = if b < j { b } else { b + 1 };
            assert(ps[a0] == self.packets@[a]);
            assert(ps[b0] == self.packets@[b]);
        }
    }

    /// Removes packet `j` and the registration of its send; the message comes
    /// back as `Disconnected` or `Timeout`.
    fn withdraw_send(&mut self, j: usize, oper: Operation) -> (r: Result<(), SendTimeoutError<T>>)
        requires
            old(self).wf(),
            j < old(self).packets().len(),
            old(self).packets()[j as int].id() == oper.0,
        ensures
            final(self).wf(),
            final(self).disconnected() == old(self).disconnected(),
            final(self).packets() == old(self).packets().remove(j as int),
            old(self).packets()[j as int].msg() matches Some(m) ==> r == Err::<(), _>(
                if old(self).disconnected() {
                    SendTimeoutError::Disconnected(m)
                } else {
                    SendTimeoutError::Timeout(m)
                },
            ),
    {
        let p = self.withdraw(j, oper);
        match p.msg {
            Some(m) => {
                if self.is_disconnected {
                    Err(SendTimeoutError::Disconnected(m))
                } else {
                    Err(SendTimeoutError::Timeout(m))
                }
            },
            None => Ok(()),
        }
    }

    /// One look at a blocked send of operation `oper`: `Ok` once a receiver
    /// has taken the message; the message back once the channel is
    /// disconnected; `None` while it still waits. Only the owner removes its
    /// packet, so an id without a packet has already been collected.
    pub fn poll_send(&mut self, oper: Operation) -> (r: Option<Result<(), SendTimeoutError<T>>>)
        requires
            old(self).wf(),
        ensures
            final(self).wf(),
            send_looked_at(*old(self), *final(self), oper, r),
    {
        match self.find_packet(oper.0) {
            None => Some(Ok(())),
            Some(j) => {
                proof { self.lemma_unique_packet(j as int); }
                if self.packets[j].ready {
                    let _ = self.collect(j);
                    Some(Ok(()))
                } else if self.is_disconnected {
                    Some(self.withdraw_send(j, oper))
                } else {
                    None
                }
            },
        }
    }

    /// Gives up a blocked send of operation `oper` (its deadline passed):
    /// `Ok` when a receiver took the message meanwhile, else the message back
    /// as `Timeout` (or `Disconnected` once the channel is disconnected).
    pub fn abort_send(&mut self, oper: Operation) -> (r: Result<(), SendTimeoutError<T>>)
        requires
            old(self).wf(),
        ensures
            final(self).wf(),
            send_withdrawn(*old(self), *final(self), oper, r),
    {
        match self.find_packet(oper.0) {
            None => Ok(()),
            Some(j) => {
                proof { self.lemma_unique_packet(j as int); }
                if self.packets[j].ready {
                    let _ = self.collect(j);
                    Ok(())
                } else {
                    self.withdraw_send(j, oper)
                }
            },
        }
    }

    /// One look at a blocked receive of operation `oper`: the message once a
    /// sender has filled the packet; `Disconnected` once the channel is
    /// disconnected; `None` while it still waits.
    pub fn poll_recv(&mut self, oper: Operation) -> (r: Option<Result<T, RecvTimeoutError>>)
        requires
            old(self).wf(),
        ensures
            final(self).wf(),
            recv_looked_at(*old(self), *final(self), oper, r),
    {
        match self.find_packet(oper.0) {
            None => Some(Err(RecvTimeoutError::Disconnected)),
            Some(j) => {
                proof { self.lemma_unique_packet(j as int); }
                if self.packets[j].ready {
                    let p = self.collect(j);
                    match p.msg {
                        Some(m) => Some(Ok(m)),
                        None => Some(Err(RecvTimeoutError::Disconnected)),
                    }
                } else if self.is_disconnected {
                    let _ = self.withdraw(j, oper);
                    Some(Err(RecvTimeoutError::Disconnected))
                } else {
                    None
                }
            },
        }
    }

    /// Gives up a blocked receive of operation `oper` (its deadline passed):
    /// the message when a sender filled the packet meanwhile, else `Timeout`
    /// (or `Disconnected` once the channel is disconnected).
    pub fn abort_recv(&mut self, oper: Operation) -> (r: Result<T, RecvTimeoutError>)
        requires
            old(self).wf(),
        ensures
            final(self).wf(),
            recv_withdrawn(*old(self), *final(self), oper, r),
    {
        match self.find_packet(oper.0) {
            None => Err(RecvTimeoutError::Disconnected),
            Some(j) => {
                proof { self.lemma_unique_packet(j as int); }
                if self.packets[j].ready {
                    let p = self.collect(j);
                    match p.msg {
                        Some(m) => Ok(m),
                        None => Err(RecvTimeoutError::Disconnected),
                    }
                } else {
                    let _ = self.withdraw(j, oper);
                    if self.is_disconnected {
                        Err(RecvTimeoutError::Disconnected)
                    } else {
                        Err(RecvTimeoutError::Timeout)
                    }
                }
            },
        }
    }

    proof fn lemma_unique_packet(&self, j: int)
        requires
            self.wf(),
            0 <= j < self.packets().len(),
        ensures
            forall|k: int| 0 <= k < self.packets().len() && (#[trigger] self.packets()[k]).id() == self.packets()[j].id() ==> k == j,
    {
        assert forall|k: int| 0 <= k < self.packets().len() && (#[trigger] self.packets()[k]).id() == self.packets()[j].id() implies k == j by {
            assert(self.packets@[k].id == self.packets@[j].id);
        }
    }

    /// Marks the channel disconnected. Returns whether this call did it. The
    /// registered operations learn it from the next look at their packets,
    /// which also tells both registries.
    pub fn disconnect(&mut self) -> (r: bool)
        requires
            old(self).wf(),
        ensures
            final(self).wf(),
            final(self).disconnected(),
            r == !old(self).disconnected(),
            final(self).packets() == old(self).packets(),
            final(self).senders() == old(self).senders(),
            final(self).receivers() == old(self).receivers(),
        opens_invariants none
        no_unwind
    {
        if !self.is_disconnected {
            self.is_disconnected = true;
            true
        } else {
            false
        }
    }

    /// Tells every operation registered in either registry that the channel
    /// is disconnected.
    fn tell_disconnected(&mut self)
        requires
            old(self).wf(),
        ensures
            final(self).wf(),
            final(self).packets() == old(self).packets(),
            final(self).disconnected() == old(self).disconnected(),
            final(self).senders().len() == old(self).senders().len(),
            final(self).receivers().len() == old(self).receivers().len(),
            forall|i: int| 0 <= i < old(self).senders().len() ==> crate::waker::disconnected_entry(
                #[trigger] old(self).senders()[i], final(self).senders()[i]),
            forall|i: int| 0 <= i < old(self).receivers().len() ==> crate::waker::disconnected_entry(
                #[trigger] old(self).receivers()[i], final(self).receivers()[i]),
    {
        let ghost ps = self.packets();
        let ghost ss = self.senders();
        let ghost rs = self.receivers();
        self.senders.disconnect();
        proof {
            assert(same_ids(ss, self.senders()));
            lemma_same_ids(ss, self.senders(), ps, true, rs);
        }
        let ghost ss2 = self.senders();
        self.receivers.disconnect();
        proof {
            assert(same_ids(rs, self.receivers()));
            lemma_same_ids(rs, self.receivers(), ps, false, ss2);
        }
    }

    /// A rendezvous channel holds no message.
    pub fn len(&self) -> (r: usize)
        ensures
            r == 0,
    {
        0
    }

    /// A rendezvous channel has capacity zero.
    pub fn capacity(&self) -> (r: Option<usize>)
        ensures
            r == Some(0usize),
    {
        Some(0)
    }

    /// A rendezvous channel is always empty.
    pub fn is_empty(&self) -> (r: bool)
        ensures
            r,
    {
        true
    }

    /// A rendezvous channel is always full.
    pub fn is_full(&self) -> (r: bool)
        ensures
            r,
    {
        true
    }
}

} // verus!
