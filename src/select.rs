//! Identifiers of blocked operations, the outcome of a blocking wait, and the
//! per-operation record carried from a reservation to its commit.
use vstd::prelude::*;

verus! {

/// Identifies one blocked operation of one thread on one channel. The values
/// 0, 1 and 2 are taken by the other outcomes of `Selected`.
#[derive(Debug, Clone, Copy, PartialEq, Eq, Structural)]
pub struct Operation(pub usize);

impl Operation {
    /// Makes the identifier of a blocked operation from a number that is
    /// unique among the operations blocked at the same time.
    pub fn hook(id: usize) -> (r: Operation)
        requires
            id > 2,
        ensures
            r.0 == id,
    {
        Operation(id)
    }
}

/// The state of a blocked operation.
#[derive(Debug, Clone, Copy, PartialEq, Eq, Structural)]
pub enum Selected {
    /// Still waiting.
    Waiting,
    /// The wait was given up (deadline, or the operation became ready on its own).
    Aborted,
    /// The channel was disconnected while waiting.
    Disconnected,
    /// A counterpart completed this operation.
    Operation(Operation),
}

/// The word that stands for a `Selected` value: 0, 1, 2, or the operation id.
pub open spec fn selected_to_word(s: Selected) -> usize {
    match s {
        Selected::Waiting => 0,
        Selected::Aborted => 1,
        Selected::Disconnected => 2,
        Selected::Operation(Operation(v)) => v,
    }
}

/// The `Selected` value that a word stands for.
pub open spec fn word_to_selected(v: usize) -> Selected {
    if v == 0 {
        Selected::Waiting
    } else if v == 1 {
        Selected::Aborted
    } else if v == 2 {
        Selected::Disconnected
    } else {
        Selected::Operation(Operation(v))
    }
}

impl From<usize> for Selected {
    fn from(val: usize) -> (r: Selected) {
        match val {
            0 => Selected::Waiting,
            1 => Selected::Aborted,
            2 => Selected::Disconnected,
            oper => Selected::Operation(Operation(oper)),
        }
    }
}

impl vstd::std_specs::convert::FromSpecImpl<usize> for Selected {
    open spec fn obeys_from_spec() -> bool {
        true
    }

    open spec fn from_spec(val: usize) -> Selected {
        word_to_selected(val)
    }
}

impl From<Selected> for usize {
    fn from(s: Selected) -> (r: usize) {
        match s {
            Selected::Waiting => 0,
            Selected::Aborted => 1,
            Selected::Disconnected => 2,
            Selected::Operation(Operation(val)) => val,
        }
    }
}

impl vstd::std_specs::convert::FromSpecImpl<Selected> for usize {
    open spec fn obeys_from_spec() -> bool {
        true
    }

    open spec fn from_spec(s: Selected) -> usize {
        selected_to_word(s)
    }
}

/// A `Selected` value whose operation id, if any, is above 2.
pub open spec fn selected_valid(s: Selected) -> bool {
    match s {
        Selected::Operation(Operation(v)) => v > 2,
        _ => true,
    }
}

/// Converting a valid `Selected` value to its word and back gives it again,
/// and every word converts back to itself.
pub proof fn lemma_selected_round_trip(s: Selected, v: usize)
    requires
        selected_valid(s),
    ensures
        word_to_selected(selected_to_word(s)) == s,
        selected_to_word(word_to_selected(v)) == v,
{
}

/// Reservation of a bounded-channel slot: the slot, or `None` when the channel
/// is disconnected, and the word to store once the slot is committed.
#[derive(Debug, Clone, Copy, PartialEq, Eq, Structural)]
pub struct ArrayToken {
    pub slot: Option<usize>,
    pub stamp: usize,
}

/// Reservation of an unbounded-channel slot: the block, or `None` when the
/// channel is disconnected, and the slot's offset inside it.
#[derive(Debug, Clone, Copy, PartialEq, Eq, Structural)]
pub struct ListToken {
    pub block: Option<usize>,
    pub offset: usize,
}

/// Reservation of a rendezvous: the packet of the paired counterpart, or
/// `None` when the channel is disconnected.
#[derive(Debug, Clone, Copy, PartialEq, Eq, Structural)]
pub struct ZeroToken(pub Option<usize>);

/// Per-operation record carried from a reservation to its commit.
#[derive(Debug, Clone, Copy, PartialEq, Eq, Structural)]
pub struct Token {
    pub array: ArrayToken,
    pub list: ListToken,
    pub zero: ZeroToken,
}

impl Token {
    /// A token that reserves nothing yet.
    pub fn new() -> (r: Token)
        ensures
            r.array.slot is None && r.array.stamp == 0,
            r.list.block is None && r.list.offset == 0,
            r.zero.0 is None,
    {
        Token {
            array: ArrayToken { slot: None, stamp: 0 },
            list: ListToken { block: None, offset: 0 },
            zero: ZeroToken(None),
        }
    }
}

} // verus!
