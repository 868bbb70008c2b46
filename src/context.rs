//! The selection state of one blocked operation: whether it still waits, was
//! given up, saw a disconnect, or was completed by a counterpart.
use vstd::prelude::*;
use crate::select::{selected_to_word, selected_valid, word_to_selected, Selected};

verus! {

/// Selection slot of a blocked operation, with the packet that the
/// counterpart published for it and the identity of its owner.
#[derive(Debug, Clone, Copy, PartialEq, Eq, Structural)]
pub struct Context {
    select: usize,
    packet: usize,
    thread_id: usize,
}

impl Context {
    /// The current selection.
    pub closed spec fn selected(&self) -> Selected {
        word_to_selected(self.select)
    }

    /// The published packet (0 when none).
    pub closed spec fn packet(&self) -> usize {
        self.packet
    }

    /// The owner's identity.
    pub closed spec fn owner(&self) -> usize {
        self.thread_id
    }

    /// A context for owner `thread_id`, waiting, with no packet.
    pub fn new(thread_id: usize) -> (r: Context)
        ensures
            r.selected() == Selected::Waiting,
            r.packet() == 0,
            r.owner() == thread_id,
    {
        Context { select: 0, packet: 0, thread_id }
    }

    /// Back to waiting, with no packet, for the next operation.
    pub fn reset(&mut self)
        ensures
            final(self).selected() == Selected::Waiting,
            final(self).packet() == 0,
            final(self).owner() == old(self).owner(),
    {
        self.select = 0;
        self.packet = 0;
    }

    /// Moves the selection from waiting to `select`. On failure the
    /// selection already made is returned and nothing changes.
    pub fn try_select(&mut self, select: Selected) -> (r: Result<(), Selected>)
        requires
            selected_valid(select),
        ensures
            old(self).selected() is Waiting ==> r is Ok && final(self).selected() == select
                && final(self).packet() == old(self).packet(),
            !(old(self).selected() is Waiting) ==> r == Err::<(), Selected>(old(self).selected())
                && *final(self) == *old(self),
            final(self).owner() == old(self).owner(),
        opens_invariants none
        no_unwind
    {
        if self.select == 0 {
            let w: usize = match select {
                Selected::Waiting => 0,
                Selected::Aborted => 1,
                Selected::Disconnected => 2,
                Selected::Operation(op) => op.0,
            };
            assert(w == selected_to_word(select));
            self.select = w;
            Ok(())
        } else {
            let s = match self.select {
                1 => Selected::Aborted,
                2 => Selected::Disconnected,
                v => Selected::Operation(crate::select::Operation(v)),
            };
            Err(s)
        }
    }

    /// Publishes a packet for the owner; to be called after a successful
    /// `try_select`.
    pub fn store_packet(&mut self, packet: usize)
        ensures
            final(self).packet() == packet,
            final(self).selected() == old(self).selected(),
            final(self).owner() == old(self).owner(),
    {
        self.packet = packet;
    }

    /// The current selection.
    pub fn selection(&self) -> (r: Selected)
        ensures
            r == self.selected(),
    {
        match self.select {
            0 => Selected::Waiting,
            1 => Selected::Aborted,
            2 => Selected::Disconnected,
            v => Selected::Operation(crate::select::Operation(v)),
        }
    }

    /// The owner's identity.
    pub fn thread_id(&self) -> (r: usize)
        ensures
            r == self.owner(),
    {
        self.thread_id
    }
}

} // verus!
