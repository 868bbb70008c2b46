//! The registry of blocked operations on one side of a channel, which pairs a
//! ready counterpart with one of them.
use vstd::prelude::*;
use crate::context::Context;
use crate::select::{Operation, Selected};

verus! {

/// A blocked operation: its id, the packet it exposes, and its context.
#[derive(Debug, Clone, Copy, PartialEq, Eq, Structural)]
pub struct Entry {
    pub oper: Operation,
    pub packet: usize,
    pub cx: Context,
}

/// Whether entry `e` may be chosen by a counterpart owned by `caller`: it
/// belongs to someone else and still waits.
pub open spec fn eligible(e: Entry, caller: usize) -> bool {
    e.cx.owner() != caller && e.cx.selected() is Waiting
}

/// Entry `e` after a counterpart chose it: selected for its own operation,
/// with its packet published.
pub open spec fn chosen(e: Entry, c: Entry) -> bool {
    &&& c.oper == e.oper
    &&& c.packet == e.packet
    &&& c.cx.owner() == e.cx.owner()
    &&& c.cx.selected() == Selected::Operation(e.oper)
    &&& c.cx.packet() == e.packet
}

/// Entry `e` after the channel was disconnected.
pub open spec fn disconnected_entry(e: Entry, c: Entry) -> bool {
    &&& c.oper == e.oper
    &&& c.packet == e.packet
    &&& c.cx.owner() == e.cx.owner()
    &&& c.cx.selected() == if e.cx.selected() is Waiting {
        Selected::Disconnected
    } else {
        e.cx.selected()
    }
}

/// Registry of blocked operations, in order of registration.
pub struct Waker {
    selectors: Vec<Entry>,
}

impl Waker {
    /// The registered operations, oldest first.
    pub closed spec fn selectors(&self) -> Seq<Entry> {
        self.selectors@
    }

    /// Every registered operation has an id above 2.
    pub closed spec fn wf(&self) -> bool {
        forall|i: int|
            0 <= i < self.selectors@.len() ==> (#[trigger] self.selectors@[i]).oper.0 > 2
    }

    /// An empty registry.
    pub fn new() -> (r: Waker)
        ensures
            r.wf(),
            r.selectors() == Seq::<Entry>::empty(),
    {
        Waker { selectors: Vec::new() }
    }

    /// Registers a blocked operation without a packet.
    pub fn register(&mut self, oper: Operation, cx: Context)
        requires
            old(self).wf(),
            oper.0 > 2,
        ensures
            final(self).wf(),
            final(self).selectors() == old(self).selectors().push(
                Entry { oper, packet: 0, cx },
            ),
    {
        self.register_with_packet(oper, 0, cx);
    }

    /// Registers a blocked operation that exposes `packet`.
    pub fn register_with_packet(&mut self, oper: Operation, packet: usize, cx: Context)
        requires
            old(self).wf(),
            oper.0 > 2,
        ensures
            final(self).wf(),
            final(self).selectors() == old(self).selectors().push(Entry { oper, packet, cx }),
    {
        self.selectors.push(Entry { oper, packet, cx });
    }

    /// Removes the first entry of operation `oper` and returns it.
    pub fn unregister(&mut self, oper: Operation) -> (r: Option<Entry>)
        requires
            old(self).wf(),
        ensures
            final(self).wf(),
            r is None <==> forall|i: int|
                0 <= i < old(self).selectors().len() ==> #[trigger] old(self).selectors()[i].oper
                    != oper,
            r is None ==> final(self).selectors() == old(self).selectors(),
            r is Some ==> exists|i: int|
                0 <= i < old(self).selectors().len() && old(self).selectors()[i].oper == oper && r
                    == Some(old(self).selectors()[i]) && final(self).selectors() == old(
                    self,
                ).selectors().remove(i) && forall|j: int|
                    0 <= j < i ==> #[trigger] old(self).selectors()[j].oper != oper,
    {
        let mut i: usize = 0;
        while i < self.selectors.len()
            invariant
                i <= self.selectors@.len(),
                self.selectors@ == old(self).selectors@,
                self.wf(),
                forall|j: int| 0 <= j < i ==> #[trigger] self.selectors@[j].oper != oper,
            decreases self.selectors@.len() - i,
        {
            if self.selectors[i].oper == oper {
                let e = self.selectors.remove(i);
                assert(old(self).selectors()[i as int].oper == oper);
                assert(self.selectors() == old(self).selectors().remove(i as int));
                assert(forall|j: int| 0 <= j < i ==> #[trigger] old(self).selectors()[j].oper != oper);
                return Some(e);
            }
            i = i + 1;
        }
        None
    }

    /// Chooses the first entry that `caller` may choose: selects it for its
    /// own operation, publishes its packet, removes and returns it.
    pub fn try_select(&mut self, caller: usize) -> (r: Option<Entry>)
        requires
            old(self).wf(),
        ensures
            final(self).wf(),
            r is None <==> forall|i: int|
                0 <= i < old(self).selectors().len() ==> !eligible(
                    #[trigger] old(self).selectors()[i],
                    caller,
                ),
            r is None ==> final(self).selectors() == old(self).selectors(),
            r is Some ==> exists|i: int|
                0 <= i < old(self).selectors().len() && eligible(old(self).selectors()[i], caller)
                    && chosen(old(self).selectors()[i], r->Some_0) && final(self).selectors()
                    == old(self).selectors().remove(i) && forall|j: int|
                    0 <= j < i ==> !eligible(#[trigger] old(self).selectors()[j], caller),
    {
        let mut i: usize = 0;
        while i < self.selectors.len()
            invariant
                i <= self.selectors@.len(),
                self.selectors@ == old(self).selectors@,
                self.wf(),
                forall|j: int| 0 <= j < i ==> !eligible(#[trigger] self.selectors@[j], caller),
            decreases self.selectors@.len() - i,
        {
            let e = self.selectors[i];
            if e.cx.thread_id() != caller {
                if let Selected::Waiting = e.cx.selection() {
                    assert(eligible(old(self).selectors@[i as int], caller));
                    let mut e = self.selectors.remove(i);
                    assert(e.oper.0 > 2);
                    assert(eligible(old(self).selectors()[i as int], caller));
                    assert(self.selectors() == old(self).selectors().remove(i as int));
                    assert(forall|j: int| 0 <= j < i ==> !eligible(#[trigger] old(self).selectors()[j], caller));
                    let _ = e.cx.try_select(Selected::Operation(e.oper));
                    e.cx.store_packet(e.packet);
                    assert(chosen(old(self).selectors()[i as int], e));
                    return Some(e);
                }
            }
            i = i + 1;
        }
        None
    }

    /// Tells every registered operation that the channel is disconnected.
    /// The entries stay: their owners remove them.
    pub fn disconnect(&mut self)
        requires
            old(self).wf(),
        ensures
            final(self).wf(),
            final(self).selectors().len() == old(self).selectors().len(),
            forall|i: int|
                0 <= i < old(self).selectors().len() ==> disconnected_entry(
                    #[trigger] old(self).selectors()[i],
                    final(self).selectors()[i],
                ),
    {
        let mut i: usize = 0;
        while i < self.selectors.len()
            invariant
                i <= self.selectors@.len(),
                self.selectors@.len() == old(self).selectors@.len(),
                self.wf(),
                forall|j: int|
                    0 <= j < i ==> disconnected_entry(
                        #[trigger] old(self).selectors@[j],
                        self.selectors@[j],
                    ),
                forall|j: int| i <= j < self.selectors@.len() ==> #[trigger] self.selectors@[j] == old(self).selectors@[j],
            decreases self.selectors@.len() - i,
        {
            let mut cx = self.selectors[i].cx;
            let _ = cx.try_select(Selected::Disconnected);
            self.selectors[i].cx = cx;
            i = i + 1;
        }
    }

    /// Position of the first entry of operation `oper`.
    pub fn position(&self, oper: Operation) -> (r: Option<usize>)
        ensures
            r matches Some(i) ==> i < self.selectors().len() && self.selectors()[i as int].oper
                == oper && forall|j: int| 0 <= j < i ==> #[trigger] self.selectors()[j].oper != oper,
            r is None ==> forall|i: int|
                0 <= i < self.selectors().len() ==> (#[trigger] self.selectors()[i]).oper != oper,
    {
        let mut i: usize = 0;
        while i < self.selectors.len()
            invariant
                i <= self.selectors@.len(),
                forall|j: int| 0 <= j < i ==> #[trigger] self.selectors@[j].oper != oper,
            decreases self.selectors@.len() - i,
        {
            if self.selectors[i].oper == oper {
                return Some(i);
            }
            i = i + 1;
        }
        None
    }

    /// Whether nothing is registered.
    pub fn is_empty(&self) -> (r: bool)
        ensures
            r == (self.selectors().len() == 0),
    {
        self.selectors.len() == 0
    }
}

/// The count of threads blocked on a channel, kept under the channel's lock,
/// so that a change with nobody waiting skips the wake-up.
pub struct SyncWaker {
    waiters: usize,
}

impl SyncWaker {
    /// The number of threads counted as waiting.
    pub closed spec fn view(&self) -> nat {
        self.waiters as nat
    }

    /// Nobody waits.
    pub fn new() -> (r: SyncWaker)
        ensures
            r@ == 0,
    {
        SyncWaker { waiters: 0 }
    }

    /// Counts one more waiting thread (the count stops at `usize::MAX`).
    pub fn register(&mut self)
        ensures
            final(self)@ == if old(self)@ < usize::MAX { old(self)@ + 1 } else { old(self)@ },
        opens_invariants none
        no_unwind
    {
        if self.waiters < usize::MAX {
            self.waiters = self.waiters + 1;
        }
    }

    /// Counts one waiting thread less.
    pub fn unregister(&mut self)
        ensures
            final(self)@ == if old(self)@ > 0 { old(self)@ - 1 } else { 0 },
        opens_invariants none
        no_unwind
    {
        if self.waiters > 0 {
            self.waiters = self.waiters - 1;
        }
    }

    /// Whether nobody waits, so that a wake-up can be skipped.
    pub fn is_empty(&self) -> (r: bool)
        ensures
            r == (self@ == 0),
        opens_invariants none
        no_unwind
    {
        self.waiters == 0
    }
}

} // verus!
