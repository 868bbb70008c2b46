//! The unbounded flavor: a chain of blocks of `BLOCK_CAP` slots each.
//!
//! `head` and `tail` are words `(position << SHIFT) | mark`. Positions count
//! `LAP` per block: offsets `0..BLOCK_CAP` are slots and offset `BLOCK_CAP`
//! marks the end of a block, which the tail steps over when it installs the
//! next block. The mark bit of `tail` is set once the channel is disconnected.
//! The head always lies in the first block: when its last slot has been read
//! the block is freed and both words move back by one lap.
use vstd::prelude::*;
use crate::errors::{TryRecvError, TrySendError};
use crate::select::{ListToken, Token};
use crate::utils::CachePadded;

verus! {

/// Positions per block, the block-end marker included.
pub const LAP: usize = 32;

/// Slots per block.
pub const BLOCK_CAP: usize = 31;

/// Low bits of a word taken by the mark.
pub const SHIFT: usize = 1;

/// The mark bit of a word.
pub const MARK_BIT: usize = 1;

/// Most messages an unbounded channel holds: the words must fit in a machine
/// word. A send beyond it finds the channel full.
pub const MAX_LEN: usize = usize::MAX / 8;

/// A block of the chain.
pub struct Block<T> {
    slots: Vec<Option<T>>,
}

impl<T> Block<T> {
    /// A block whose slots are all empty.
    fn new() -> (r: Block<T>)
        ensures
            r.slots@.len() == BLOCK_CAP,
            forall|o: int| 0 <= o < BLOCK_CAP ==> #[trigger] r.slots@[o] is None,
    {
        let mut slots: Vec<Option<T>> = Vec::with_capacity(BLOCK_CAP);
        let mut i: usize = 0;
        while i < BLOCK_CAP
            invariant
                i <= BLOCK_CAP,
                slots@.len() == i,
                forall|o: int| 0 <= o < i ==> #[trigger] slots@[o] is None,
            decreases BLOCK_CAP - i,
        {
            slots.push(None);
            i = i + 1;
        }
        Block { slots }
    }
}

proof fn lemma_word(w: usize)
    ensures
        w >> 1usize == w / 2,
        w & 1usize == w % 2,
{
    assert(w >> 1usize == w / 2) by (bit_vector);
    assert(w & 1usize == w % 2) by (bit_vector);
}

/// The unbounded channel body.
pub struct Channel<T> {
    head: CachePadded<usize>,
    tail: CachePadded<usize>,
    /// The tail up to which slots have been written (the tail, once a
    /// reservation for a send is committed).
    written: usize,
    blocks: Vec<Block<T>>,
    /// Blocks discarded when the receivers left, kept until a sender takes
    /// them away to drop them outside the channel's lock.
    discarded: Vec<Block<T>>,
}

impl<T> Channel<T> {
    closed spec fn hp(&self) -> int {
        self.head@ as int / 2
    }

    closed spec fn tp(&self) -> int {
        self.written as int / 2
    }

    /// Slot number of the head: slots are numbered across blocks, markers skipped.
    closed spec fn hs(&self) -> int {
        self.hp()
    }

    /// Slot number of the tail.
    closed spec fn ts(&self) -> int {
        (self.tp() / LAP as int) * BLOCK_CAP as int + self.tp() % LAP as int
    }

    closed spec fn count(&self) -> int {
        self.ts() - self.hs()
    }

    closed spec fn slot(&self, s: int) -> Option<T> {
        self.blocks@[s / BLOCK_CAP as int].slots@[s % BLOCK_CAP as int]
    }

    /// Well-formedness: the head lies in the first block, the tail in the last,
    /// every block has `BLOCK_CAP` slots, and exactly the slots between head
    /// and tail hold a message.
    pub closed spec fn wf(&self) -> bool {
        &&& self.settled()
        &&& self.tail@ == self.written
    }

    /// The committed state: the written tail and the head as described above.
    pub closed spec fn settled(&self) -> bool {
        &&& self.head@ % 2 == 0
        &&& self.hp() < BLOCK_CAP
        &&& self.tp() % (LAP as int) < BLOCK_CAP
        &&& self.blocks@.len() == 0 ==> self.tp() == 0 && self.hp() == 0
        &&& !self.disconnected() ==> self.discarded@.len() == 0
        &&& self.blocks@.len() > 0 ==> self.tp() / LAP as int == self.blocks@.len() - 1
        &&& self.hs() <= self.ts()
        &&& self.count() <= MAX_LEN
        &&& forall|b: int| 0 <= b < self.blocks@.len() ==> (#[trigger] self.blocks@[b]).slots@.len() == BLOCK_CAP
        &&& forall|b: int, o: int|
            0 <= b < self.blocks@.len() && 0 <= o < BLOCK_CAP ==> (
            #[trigger] self.blocks@[b].slots@[o] is Some <==> self.hs() <= b * BLOCK_CAP + o < self.ts())
    }

    /// The messages held, oldest first.
    pub closed spec fn messages(&self) -> Seq<T> {
        Seq::new(self.count() as nat, |k: int| self.slot(self.hs() + k)->Some_0)
    }

    /// Whether the channel is disconnected.
    pub closed spec fn disconnected(&self) -> bool {
        self.written % 2 == 1
    }

    /// A fresh, empty and connected channel.
    pub fn new() -> (r: Self)
        ensures
            r.wf(),
            r.messages() == Seq::<T>::empty(),
            !r.disconnected(),
    {
        let r = Channel {
            head: CachePadded::new(0),
            tail: CachePadded::new(0),
            written: 0,
            blocks: Vec::new(),
            discarded: Vec::new(),
        };
        assert(r.messages() =~= Seq::<T>::empty());
        r
    }

    /// The reservation that `start_send` makes on this state.
    pub closed spec fn send_reservation(&self) -> ListToken {
        if self.disconnected() {
            ListToken { block: None, offset: 0 }
        } else {
            ListToken {
                block: Some((self.blocks@.len() - 1) as usize),
                offset: (self.tp() % LAP as int) as usize,
            }
        }
    }

    /// The reservation that `start_recv` makes on this state.
    pub closed spec fn recv_reservation(&self) -> ListToken {
        if self.messages().len() == 0 {
            ListToken { block: None, offset: 0 }
        } else {
            ListToken { block: Some(0), offset: self.hp() as usize }
        }
    }

    /// The tail word: where the next send reserves.
    pub closed spec fn tail_word(&self) -> int {
        self.tail@ as int
    }

    /// A send has reserved the slot at the written tail: the tail has moved
    /// one position on, and the slot waits for `write`.
    pub closed spec fn send_reserved(&self) -> bool {
        &&& self.settled()
        &&& self.tail@ == self.written + 2
        &&& !self.disconnected()
        &&& !self.at_limit()
        &&& self.has_block()
    }

    /// Whether the chain holds a block.
    pub closed spec fn has_block(&self) -> bool {
        self.blocks@.len() > 0
    }

    /// Whether the channel holds as many messages as the machine word allows.
    pub open spec fn at_limit(&self) -> bool {
        self.messages().len() >= MAX_LEN
    }

    proof fn lemma_facts(&self)
        requires
            self.settled(),
        ensures
            self.written <= usize::MAX - 8,
            self.blocks@.len() > 0 ==> self.tp() == (self.blocks@.len() - 1) * LAP + self.tp() % (LAP as int),
            self.ts() >= (self.blocks@.len() - 1) * BLOCK_CAP,
            self.messages().len() == self.count(),
    {
        let q = self.tp() / LAP as int;
        let r = self.tp() % LAP as int;
        assert(self.tp() == q * 32 + r);
        assert(self.ts() == q * 31 + r);
        assert(self.count() <= MAX_LEN);
        assert(self.hs() < 31);
        assert(q * 31 + r <= MAX_LEN + 31);
        assert(self.tp() <= 2 * (MAX_LEN + 31));
    }

    proof fn lemma_slot_of(&self, b: int, o: int)
        requires
            0 <= b,
            0 <= o < BLOCK_CAP,
        ensures
            (b * BLOCK_CAP + o) / BLOCK_CAP as int == b,
            (b * BLOCK_CAP + o) % BLOCK_CAP as int == o,
    {
        vstd::arithmetic::div_mod::lemma_fundamental_div_mod_converse(
            b * BLOCK_CAP + o,
            BLOCK_CAP as int,
            b,
            o,
        );
    }

    /// Reserves a slot for a send, installing the first block when there is
    /// none. Returns false only at the limit (and connected), changing
    /// nothing. Otherwise fills the token with the reservation: on a
    /// disconnected channel an empty one, changing nothing else; else the slot
    /// at the tail, and the tail moves one position on (onto the block-end
    /// marker when the slot is the last of its block), for `write` to commit.
    pub fn start_send(&mut self, token: &mut Token) -> (r: bool)
        requires
            old(self).wf(),
        ensures
            final(self).messages() == old(self).messages(),
            final(self).disconnected() == old(self).disconnected(),
            r == (old(self).disconnected() || !old(self).at_limit()),
            r ==> final(token).list == final(self).send_reservation(),
            r ==> (final(token).list.block is None <==> old(self).disconnected()),
            !r ==> *final(token) == *old(token),
            !r || old(self).disconnected() ==> *final(self) == *old(self),
            r && !old(self).disconnected() ==> final(self).send_reserved() && final(self).tail_word()
                == old(self).tail_word() + 2,
            final(token).array == old(token).array,
            final(token).zero == old(token).zero,
    {
        let tail = self.written;
        proof {
            lemma_word(tail);
            self.lemma_facts();
        }
        if tail & MARK_BIT != 0 {
            token.list = ListToken { block: None, offset: 0 };
            return true;
        }
        if self.len() >= MAX_LEN {
            return false;
        }
        if self.blocks.len() == 0 {
            let ghost old_self = *self;
            self.blocks.push(Block::new());
            proof {
                assert forall|b: int, o: int|
                    0 <= b < self.blocks@.len() && 0 <= o < BLOCK_CAP implies (
                    #[trigger] self.blocks@[b].slots@[o] is Some <==> self.hs() <= b * BLOCK_CAP + o
                        < self.ts()) by {
                    assert(b == 0);
                }
                assert(self.messages() =~= old_self.messages());
            }
        }
        let offset = (tail >> SHIFT) % LAP;
        token.list = ListToken { block: Some(self.blocks.len() - 1), offset };
        let ghost installed = *self;
        self.tail.set(tail + 2);
        assert(self.messages() =~= installed.messages());
        true
    }

    /// Commits a reservation of `start_send`: stores the message in the
    /// reserved slot and steps the tail over the block end, installing the
    /// next block; or hands the message back when the reservation is empty.
    pub fn write(&mut self, token: &Token, msg: T) -> (r: Result<(), T>)
        requires
            (token.list.block is None && old(self).wf()) || (old(self).send_reserved()
                && token.list == old(self).send_reservation()),
        ensures
            final(self).wf(),
            token.list.block is None ==> r == Err::<(), T>(msg) && *final(self) == *old(self),
            token.list.block is Some ==> r is Ok && final(self).messages() == old(self).messages().push(
                msg,
            ) && !final(self).disconnected(),
    {
        match token.list.block {
            None => Err(msg),
            Some(b) => {
                let ghost old_self = *self;
                let offset = token.list.offset;
                proof {
                    self.lemma_facts();
                    self.lemma_slot_of(b as int, offset as int);
                    lemma_word(self.written);
                }
                let mut blk = Block { slots: Vec::new() };
                std::mem::swap(&mut blk, &mut self.blocks[b]);
                blk.slots.set(offset, Some(msg));
                std::mem::swap(&mut blk, &mut self.blocks[b]);
                let mut tail = self.written + 2;
                if offset + 1 == BLOCK_CAP {
                    self.blocks.push(Block::new());
                    tail = tail + 2;
                }
                self.written = tail;
                self.tail.set(tail);
                proof {
                    let q = old_self.tp() / LAP as int;
                    assert(old_self.tp() == q * 32 + offset);
                    if offset + 1 == BLOCK_CAP {
                        assert(self.tp() == (q + 1) * 32);
                        assert(self.ts() == (q + 1) * 31);
                    } else {
                        assert(self.tp() == q * 32 + offset + 1);
                        assert(self.ts() == q * 31 + offset + 1);
                    }
                    assert(self.ts() == old_self.ts() + 1);
                    assert forall|bb: int, o: int|
                        0 <= bb < self.blocks@.len() && 0 <= o < BLOCK_CAP implies (
                        #[trigger] self.blocks@[bb].slots@[o] is Some <==> self.hs() <= bb * BLOCK_CAP
                            + o < self.ts()) by {
                        if bb < old_self.blocks@.len() {
                            assert(old_self.blocks@[bb].slots@[o] is Some <==> old_self.hs() <= bb
                                * BLOCK_CAP + o < old_self.ts());
                        }
                    }
                    assert forall|k: int| 0 <= k < self.messages().len() implies #[trigger] self.messages()[k]
                        == old_self.messages().push(msg)[k] by {
                        let s = self.hs() + k;
                        let bb = s / BLOCK_CAP as int;
                        let o = s % BLOCK_CAP as int;
                        self.lemma_slot_of(bb, o);
                        if k < old_self.messages().len() {
                        } else {
                            assert(s == b * BLOCK_CAP + offset);
                        }
                    }
                    assert(self.messages() =~= old_self.messages().push(msg));
                }
                Ok(())
            },
        }
    }

    /// The number of messages held: the distance between the positions of
    /// tail and head, less one block-end marker per block that lies between.
    pub fn len(&self) -> (r: usize)
        requires
            self.wf(),
        ensures
            r == self.messages().len(),
    {
        let tail = self.written;
        let head = *self.head.get();
        proof {
            lemma_word(tail);
            lemma_word(head);
            self.lemma_facts();
        }
        let tail = tail >> SHIFT;
        let head = head >> SHIFT;
        tail - head - tail / LAP
    }

    /// Reserves the oldest message for a receive. Returns false when the
    /// channel is empty and connected; otherwise fills the token with the
    /// reservation, empty when the channel is empty and disconnected.
    pub fn start_recv(&self, token: &mut Token) -> (r: bool)
        requires
            self.wf(),
        ensures
            r == (self.disconnected() || self.messages().len() > 0),
            r ==> final(token).list == self.recv_reservation(),
            r ==> (final(token).list.block is None <==> self.messages().len() == 0),
            !r ==> *final(token) == *old(token),
            final(token).array == old(token).array,
            final(token).zero == old(token).zero,
    {
        let head = *self.head.get();
        let tail = self.written;
        proof {
            lemma_word(tail);
            lemma_word(head);
            self.lemma_facts();
        }
        if head >> SHIFT == tail >> SHIFT {
            // Head and tail meet: the channel is empty.
            if tail & MARK_BIT != 0 {
                token.list = ListToken { block: None, offset: 0 };
                return true;
            } else {
                return false;
            }
        }
        token.list = ListToken { block: Some(0), offset: head >> SHIFT };
        true
    }

    /// Commits a reservation of `start_recv`: takes the oldest message out,
    /// freeing the first block once its last slot has been read; or fails
    /// when the reservation is empty.
    pub fn read(&mut self, token: &Token) -> (r: Result<T, ()>)
        requires
            old(self).wf(),
            token.list == old(self).recv_reservation(),
        ensures
            final(self).wf(),
            final(self).disconnected() == old(self).disconnected(),
            old(self).messages().len() == 0 ==> r is Err && final(self).messages() == old(
                self,
            ).messages(),
            old(self).messages().len() > 0 ==> r == Ok::<T, ()>(old(self).messages()[0])
                && final(self).messages() == old(self).messages().drop_first(),
    {
        match token.list.block {
            None => Err(()),
            Some(_) => {
                let ghost old_self = *self;
                let head = *self.head.get();
                let tail = self.written;
                proof {
                    lemma_word(head);
                    lemma_word(tail);
                    self.lemma_facts();
                    self.lemma_slot_of(0, old_self.hp());
                    assert(self.blocks@.len() > 0);
                }
                let offset = head >> SHIFT;
                let mut blk = Block { slots: Vec::new() };
                std::mem::swap(&mut blk, &mut self.blocks[0]);
                let mut taken: Option<T> = None;
                std::mem::swap(&mut taken, &mut blk.slots[offset]);
                std::mem::swap(&mut blk, &mut self.blocks[0]);
                if offset + 1 == BLOCK_CAP {
                    // The last slot of the first block: free the block and
                    // move both words back one lap.
                    proof {
                        let q = old_self.tp() / LAP as int;
                        assert(old_self.ts() >= 31);
                        assert(q >= 1);
                        assert(self.blocks@.len() >= 2);
                    }
                    let _ = self.blocks.remove(0);
                    self.head.set(0);
                    self.written = tail - 2 * LAP;
                    self.tail.set(tail - 2 * LAP);
                } else {
                    self.head.set(head + 2);
                }
                proof {
                    let q = old_self.tp() / LAP as int;
                    let rr = old_self.tp() % LAP as int;
                    if offset + 1 == BLOCK_CAP {
                        assert(self.tp() == (q - 1) * 32 + rr);
                        assert(self.tp() / LAP as int == q - 1);
                        assert(self.tp() % LAP as int == rr);
                        assert(self.ts() == old_self.ts() - 31);
                        assert(self.hs() == 0);
                    } else {
                        assert(self.hs() == old_self.hs() + 1);
                        assert(self.ts() == old_self.ts());
                    }
                    assert(self.count() == old_self.count() - 1);
                    let d: int = if offset + 1 == BLOCK_CAP { 1 } else { 0 };
                    assert forall|bb: int, o: int|
                        0 <= bb < self.blocks@.len() && 0 <= o < BLOCK_CAP implies (
                        #[trigger] self.blocks@[bb].slots@[o] is Some <==> self.hs() <= bb * BLOCK_CAP
                            + o < self.ts()) by {
                        assert(old_self.blocks@[bb + d].slots@[o] is Some <==> old_self.hs() <= (bb
                            + d) * BLOCK_CAP + o < old_self.ts());
                    }
                    assert forall|k: int| 0 <= k < self.messages().len() implies #[trigger] self.messages()[k]
                        == old_self.messages()[k + 1] by {
                        let s = self.hs() + k;
                        let bb = s / BLOCK_CAP as int;
                        let o = s % BLOCK_CAP as int;
                        self.lemma_slot_of(bb, o);
                        self.lemma_slot_of(bb + d, o);
                        assert(old_self.hs() + k + 1 == (bb + d) * BLOCK_CAP + o);
                    }
                    assert(self.messages() =~= old_self.messages().drop_first());
                }
                match taken {
                    Some(m) => Ok(m),
                    None => Err(()),
                }
            },
        }
    }

    /// Sends without blocking. An unbounded channel refuses a message only
    /// when disconnected, or at the limit of the machine word.
    pub fn try_send(&mut self, msg: T) -> (r: Result<(), TrySendError<T>>)
        requires
            old(self).wf(),
        ensures
            final(self).wf(),
            final(self).disconnected() == old(self).disconnected(),
            old(self).disconnected() ==> r == Err::<(), _>(TrySendError::Disconnected(msg))
                && final(self).messages() == old(self).messages(),
            !old(self).disconnected() && old(self).at_limit() ==> r == Err::<(), _>(
                TrySendError::Full(msg),
            ) && final(self).messages() == old(self).messages(),
            !old(self).disconnected() && !old(self).at_limit() ==> r is Ok && final(self).messages()
                == old(self).messages().push(msg),
    {
        let mut token = Token::new();
        if self.start_send(&mut token) {
            match self.write(&token, msg) {
                Ok(()) => Ok(()),
                Err(m) => Err(TrySendError::Disconnected(m)),
            }
        } else {
            Err(TrySendError::Full(msg))
        }
    }

    /// Receives without blocking: messages still held are handed out after a
    /// disconnect too.
    pub fn try_recv(&mut self) -> (r: Result<T, TryRecvError>)
        requires
            old(self).wf(),
        ensures
            final(self).wf(),
            final(self).disconnected() == old(self).disconnected(),
            old(self).messages().len() > 0 ==> r == Ok::<T, TryRecvError>(old(self).messages()[0])
                && final(self).messages() == old(self).messages().drop_first(),
            old(self).messages().len() == 0 ==> final(self).messages() == old(self).messages() && r
                == Err::<T, TryRecvError>(
                if old(self).disconnected() {
                    TryRecvError::Disconnected
                } else {
                    TryRecvError::Empty
                },
            ),
    {
        let mut token = Token::new();
        if self.start_recv(&mut token) {
            match self.read(&token) {
                Ok(m) => Ok(m),
                Err(()) => Err(TryRecvError::Disconnected),
            }
        } else {
            Err(TryRecvError::Empty)
        }
    }

    /// An unbounded channel has no capacity.
    pub fn capacity(&self) -> (r: Option<usize>)
        ensures
            r is None,
    {
        None
    }

    /// Sets the mark bit of the tail, on the senders' side. Returns whether
    /// this call did it.
    pub fn disconnect_senders(&mut self) -> (r: bool)
        requires
            old(self).wf(),
        ensures
            final(self).wf(),
            final(self).messages() == old(self).messages(),
            final(self).disconnected(),
            r == !old(self).disconnected(),
        opens_invariants none
        no_unwind
    {
        self.mark_tail()
    }

    /// Sets the mark bit of the tail, on the receivers' side. Returns whether
    /// this call did it; if so, every message still held is discarded at
    /// once, since no receiver is left to take it. The discarded blocks wait
    /// for `take_discarded`, so that they are dropped outside any lock.
    pub fn disconnect_receivers(&mut self) -> (r: bool)
        requires
            old(self).wf(),
        ensures
            final(self).wf(),
            final(self).disconnected(),
            r == !old(self).disconnected(),
            r ==> final(self).messages() == Seq::<T>::empty(),
            !r ==> final(self).messages() == old(self).messages(),
        opens_invariants none
        no_unwind
    {
        if self.mark_tail() {
            self.discard_all_messages();
            true
        } else {
            false
        }
    }

    /// Hands the blocks discarded when the receivers left to `out`, which
    /// must be empty; the messages held stay as they are.
    pub fn take_discarded(&mut self, out: &mut Vec<Block<T>>)
        requires
            old(self).wf(),
            old(out)@.len() == 0,
        ensures
            final(self).wf(),
            final(self).messages() == old(self).messages(),
            final(self).disconnected() == old(self).disconnected(),
            final(self).at_limit() == old(self).at_limit(),
            final(self).send_reservation() == old(self).send_reservation(),
            final(self).has_block() == old(self).has_block(),
        opens_invariants none
        no_unwind
    {
        std::mem::swap(&mut self.discarded, out);
        let ghost o = *old(self);
        assert(self.messages() =~= o.messages());
    }

    fn mark_tail(&mut self) -> (r: bool)
        requires
            old(self).wf(),
        ensures
            final(self).wf(),
            final(self).messages() == old(self).messages(),
            final(self).disconnected(),
            r == !old(self).disconnected(),
            final(self).has_block() == old(self).has_block(),
            final(self).discarded@ == old(self).discarded@,
        opens_invariants none
        no_unwind
    {
        let tail = self.written;
        proof {
            lemma_word(tail);
            self.lemma_facts();
        }
        if tail & MARK_BIT != 0 {
            false
        } else {
            let ghost old_self = *self;
            self.written = tail + MARK_BIT;
            self.tail.set(tail + MARK_BIT);
            assert(self.tp() == old_self.tp());
            assert(self.messages() =~= old_self.messages());
            true
        }
    }

    /// Moves every block, with the messages still held, to the discarded
    /// ones; the channel stays disconnected and holds nothing. Only for a
    /// channel that no receiver can read any more, just disconnected.
    fn discard_all_messages(&mut self)
        requires
            old(self).wf(),
            old(self).disconnected(),
            old(self).discarded@.len() == 0,
        ensures
            final(self).wf(),
            final(self).disconnected(),
            final(self).messages() == Seq::<T>::empty(),
        opens_invariants none
        no_unwind
    {
        std::mem::swap(&mut self.blocks, &mut self.discarded);
        self.head.set(0);
        self.written = MARK_BIT;
        self.tail.set(MARK_BIT);
        assert(self.messages() =~= Seq::<T>::empty());
    }

    /// Whether the channel is disconnected.
    pub fn is_disconnected(&self) -> (r: bool)
        requires
            self.wf(),
        ensures
            r == self.disconnected(),
    {
        let tail = self.written;
        proof {
            lemma_word(tail);
        }
        tail & MARK_BIT != 0
    }

    /// Whether no message is held.
    pub fn is_empty(&self) -> (r: bool)
        requires
            self.wf(),
        ensures
            r == (self.messages().len() == 0),
    {
        let head = *self.head.get();
        let tail = self.written;
        proof {
            lemma_word(tail);
            lemma_word(head);
            self.lemma_facts();
        }
        head >> SHIFT == tail >> SHIFT
    }

    /// An unbounded channel is never full.
    pub fn is_full(&self) -> (r: bool)
        ensures
            !r,
    {
        false
    }
}

} // verus!
