//! The bounded flavor: a preallocated ring of `cap` slots.
//!
//! `head` and `tail` are words `{lap, mark, index}`: the index of the slot in
//! the low part (below `mark_bit`), the mark bit (set on `tail` once the
//! channel is disconnected), and a lap bit (worth `one_lap`) above it. The
//! laps tell a full ring from an empty one when both indices coincide.
//!
//! Each slot carries a stamp: the tail word at which it can next be written,
//! or, once written, the head word at which it can be read plus one. A send
//! finds its slot writable when the stamp equals the tail; a receive finds a
//! message when the stamp is one past the head.
use vstd::prelude::*;
use crate::errors::{TryRecvError, TrySendError};
use crate::select::{ArrayToken, Token};
use crate::utils::CachePadded;

verus! {

/// The least power of two above `cap`.
pub open spec fn least_pow2_above(cap: nat, p: nat) -> bool {
    &&& is_pow2(p)
    &&& cap < p
    &&& p <= 1 || p / 2 <= cap
}

/// `p` is a power of two.
pub open spec fn is_pow2(p: nat) -> bool
    decreases p,
{
    if p == 1 {
        true
    } else if p == 0 || p % 2 == 1 {
        false
    } else {
        is_pow2(p / 2)
    }
}

/// Largest capacity of a bounded channel: the words `{lap, mark, index}` must
/// fit in a machine word.
pub const MAX_CAP: usize = usize::MAX / 8;

/// A slot of the ring: its stamp, and the message it holds.
pub struct Slot<T> {
    stamp: usize,
    msg: Option<T>,
}

/// The bounded channel body.
pub struct Channel<T> {
    head: CachePadded<usize>,
    tail: CachePadded<usize>,
    /// The head up to which slots have been read (the head, once a
    /// reservation for a receive is committed).
    consumed: usize,
    /// The tail up to which slots have been written (the tail, once a
    /// reservation for a send is committed).
    written: usize,
    buffer: Vec<Slot<T>>,
    cap: usize,
    one_lap: usize,
    mark_bit: usize,
}

impl<T> Channel<T> {
    /// The word up to which slots have been read.
    pub closed spec fn consumed_word(&self) -> int {
        self.consumed as int
    }

    /// The head word: where the next receive reserves.
    pub closed spec fn head_word(&self) -> int {
        self.head@ as int
    }

    /// The tail word: where the next send reserves.
    pub closed spec fn tail_word(&self) -> int {
        self.tail@ as int
    }

    /// The word up to which slots have been written.
    pub closed spec fn written_word(&self) -> int {
        self.written as int
    }

    /// Lap bit of a word (0 or 1).
    closed spec fn lap_of(&self, w: int) -> int {
        if w >= self.one_lap {
            1
        } else {
            0
        }
    }

    /// A word without its lap part.
    closed spec fn low_of(&self, w: int) -> int {
        if w >= self.one_lap {
            w - self.one_lap
        } else {
            w
        }
    }

    /// Whether the mark bit of a word is set.
    closed spec fn marked(&self, w: int) -> bool {
        self.low_of(w) >= self.mark_bit
    }

    /// Slot index of a word.
    closed spec fn index_of(&self, w: int) -> int {
        if self.marked(w) {
            self.low_of(w) - self.mark_bit
        } else {
            self.low_of(w)
        }
    }

    closed spec fn hix(&self) -> int {
        self.index_of(self.consumed_word())
    }

    closed spec fn tix(&self) -> int {
        self.index_of(self.written_word())
    }

    /// Number of messages held.
    closed spec fn count(&self) -> int {
        if self.lap_of(self.written_word()) == self.lap_of(self.consumed_word()) {
            self.tix() - self.hix()
        } else {
            self.cap - self.hix() + self.tix()
        }
    }

    /// Slot of the `k`-th message from the head.
    closed spec fn slot_at(&self, k: int) -> int {
        if self.hix() + k < self.cap {
            self.hix() + k
        } else {
            self.hix() + k - self.cap
        }
    }

    /// Whether slot `i` lies between head and tail.
    closed spec fn occupied(&self, i: int) -> bool {
        if self.lap_of(self.written_word()) == self.lap_of(self.consumed_word()) {
            self.hix() <= i < self.tix()
        } else {
            i >= self.hix() || i < self.tix()
        }
    }

    /// The word of index `i` in lap `lap` (0 or 1).
    closed spec fn word(&self, lap: int, i: int) -> int {
        if lap == 0 {
            i
        } else {
            self.one_lap + i
        }
    }

    /// The lap in which the tail next reaches slot `i`.
    closed spec fn write_lap(&self, i: int) -> int {
        if i >= self.tix() {
            self.lap_of(self.written_word())
        } else {
            1 - self.lap_of(self.written_word())
        }
    }

    /// The lap in which the head next reaches slot `i`.
    closed spec fn read_lap(&self, i: int) -> int {
        if i >= self.hix() {
            self.lap_of(self.consumed_word())
        } else {
            1 - self.lap_of(self.consumed_word())
        }
    }

    /// The stamp of slot `i` is the word at which it is next written, or,
    /// while it holds a message, the word at which it is next read plus one.
    closed spec fn stamp_ok(&self, i: int) -> bool {
        if self.occupied(i) {
            self.buffer@[i].stamp == self.word(self.read_lap(i), i) + 1
        } else {
            self.buffer@[i].stamp == self.word(self.write_lap(i), i)
        }
    }

    /// Well-formedness at rest: no reservation is outstanding, so the head
    /// and tail are where reading and writing have got to.
    pub closed spec fn wf(&self) -> bool {
        &&& self.settled()
        &&& self.head@ == self.consumed
        &&& self.tail@ == self.written
    }

    /// The committed state: the words decompose as described, the indices
    /// are in the ring, reading never runs past writing, exactly the slots
    /// between them hold a message, and every stamp is as `stamp_ok` says.
    pub closed spec fn settled(&self) -> bool {
        &&& 0 < self.cap <= MAX_CAP
        &&& least_pow2_above(self.cap as nat, self.mark_bit as nat)
        &&& self.one_lap == 2 * self.mark_bit
        &&& self.buffer@.len() == self.cap
        &&& 0 <= self.consumed_word() < 2 * self.one_lap
        &&& 0 <= self.written_word() < 2 * self.one_lap
        &&& !self.marked(self.consumed_word())
        &&& self.hix() < self.cap
        &&& self.tix() < self.cap
        &&& self.lap_of(self.written_word()) == self.lap_of(self.consumed_word()) ==> self.hix()
            <= self.tix()
        &&& self.lap_of(self.written_word()) != self.lap_of(self.consumed_word()) ==> self.tix()
            <= self.hix()
        &&& forall|i: int|
            0 <= i < self.cap ==> (#[trigger] self.buffer@[i].msg is Some <==> self.occupied(i))
        &&& forall|i: int| 0 <= i < self.cap ==> #[trigger] self.stamp_ok(i)
    }

    /// The messages held, oldest first.
    pub closed spec fn messages(&self) -> Seq<T> {
        Seq::new(self.count() as nat, |k: int| self.buffer@[self.slot_at(k)].msg->Some_0)
    }

    /// Whether the channel is disconnected.
    pub closed spec fn disconnected(&self) -> bool {
        self.marked(self.written_word())
    }

    /// The mark bit: the least power of two above the capacity.
    pub closed spec fn mark_bit(&self) -> nat {
        self.mark_bit as nat
    }

    /// The worth of one lap in a word: twice the mark bit.
    pub closed spec fn one_lap(&self) -> nat {
        self.one_lap as nat
    }

    /// The stamp of slot `i`.
    pub closed spec fn stamp(&self, i: int) -> int {
        self.buffer@[i].stamp as int
    }

    /// The fixed capacity.
    pub closed spec fn cap(&self) -> nat {
        self.cap as nat
    }

    /// A fresh, empty and connected channel of capacity `cap`.
    pub fn with_capacity(cap: usize) -> (r: Self)
        requires
            0 < cap <= MAX_CAP,
        ensures
            r.wf(),
            r.messages() == Seq::<T>::empty(),
            !r.disconnected(),
            r.cap() == cap,
            r.consumed_word() == 0 && r.written_word() == 0,
            r.head_word() == 0 && r.tail_word() == 0,
            least_pow2_above(cap as nat, r.mark_bit()),
            r.one_lap() == 2 * r.mark_bit(),
            forall|i: int| 0 <= i < cap ==> #[trigger] r.stamp(i) == i,
    {
        let mark_bit = next_power_of_two_above(cap);
        let one_lap = mark_bit * 2;
        let mut buffer: Vec<Slot<T>> = Vec::with_capacity(cap);
        let mut i: usize = 0;
        while i < cap
            invariant
                i <= cap,
                buffer@.len() == i,
                forall|j: int| 0 <= j < i ==> (#[trigger] buffer@[j]).msg is None && buffer@[j].stamp == j,
            decreases cap - i,
        {
            // Slot `i` is first written at index `i` of lap 0.
            buffer.push(Slot { stamp: i, msg: None });
            i = i + 1;
        }
        let r = Channel {
            head: CachePadded::new(0),
            tail: CachePadded::new(0),
            consumed: 0,
            written: 0,
            buffer,
            cap,
            one_lap,
            mark_bit,
        };
        assert(r.messages() =~= Seq::<T>::empty());
        r
    }

    /// The word `w` one lap further, index and mark cleared.
    fn next_lap(&self, w: usize) -> (r: usize)
        requires
            self.settled(),
            w < 2 * self.one_lap,
        ensures
            r == if self.lap_of(w as int) == 0 { self.one_lap } else { 0 },
    {
        if w >= self.one_lap {
            0
        } else {
            self.one_lap
        }
    }

    /// Lap part of a word.
    fn lap_part(&self, w: usize) -> (r: usize)
        requires
            self.settled(),
        ensures
            r == self.lap_of(w as int) * self.one_lap,
    {
        if w >= self.one_lap {
            self.one_lap
        } else {
            0
        }
    }

    /// Index part of a word.
    fn index_part(&self, w: usize) -> (r: usize)
        requires
            self.settled(),
            w < 2 * self.one_lap,
        ensures
            r == self.index_of(w as int),
    {
        let low = if w >= self.one_lap {
            w - self.one_lap
        } else {
            w
        };
        if low >= self.mark_bit {
            low - self.mark_bit
        } else {
            low
        }
    }

    /// A word without its mark bit.
    fn unmarked(&self, w: usize) -> (r: usize)
        requires
            self.settled(),
            w < 2 * self.one_lap,
        ensures
            r == if self.marked(w as int) { w - self.mark_bit } else { w as int },
    {
        let low = if w >= self.one_lap {
            w - self.one_lap
        } else {
            w
        };
        if low >= self.mark_bit {
            w - self.mark_bit
        } else {
            w
        }
    }

    /// The word after `w` (an unmarked word at index `index`): the next index
    /// in the same lap, or index 0 of the next lap.
    fn successor(&self, w: usize, index: usize) -> (r: usize)
        requires
            self.settled(),
            w < 2 * self.one_lap,
            !self.marked(w as int),
            index == self.index_of(w as int),
            index < self.cap,
        ensures
            !self.marked(r as int),
            r < 2 * self.one_lap,
            index + 1 < self.cap ==> self.lap_of(r as int) == self.lap_of(w as int) && self.index_of(
                r as int,
            ) == index + 1,
            index + 1 >= self.cap ==> self.lap_of(r as int) != self.lap_of(w as int)
                && self.index_of(r as int) == 0,
            r == self.next_word(w as int),
    {
        if index + 1 < self.cap {
            w + 1
        } else {
            let lap = self.lap_part(w);
            self.next_lap(lap)
        }
    }

    /// The word after `w` (an unmarked word): the next index in the same lap,
    /// or index 0 of the next lap.
    pub closed spec fn next_word(&self, w: int) -> int {
        if self.index_of(w) + 1 < self.cap {
            w + 1
        } else if self.lap_of(w) == 0 {
            self.one_lap as int
        } else {
            0
        }
    }

    /// A send has reserved the slot at the written word: the tail has moved
    /// one on, and the slot waits for `write`.
    pub closed spec fn send_reserved(&self) -> bool {
        &&& self.settled()
        &&& self.head@ == self.consumed
        &&& !self.disconnected()
        &&& self.count() < self.cap
        &&& self.tail@ == self.next_word(self.written as int)
    }

    /// A receive has reserved the slot at the consumed word: the head has
    /// moved one on, and the message waits for `read`.
    pub closed spec fn recv_reserved(&self) -> bool {
        &&& self.settled()
        &&& self.tail@ == self.written
        &&& self.count() > 0
        &&& self.head@ == self.next_word(self.consumed as int)
    }

    /// The reservation that `start_send` makes on this state: the slot at the
    /// tail and the stamp that marks it written (the tail plus one).
    pub closed spec fn send_reservation(&self) -> ArrayToken {
        if self.disconnected() {
            ArrayToken { slot: None, stamp: 0 }
        } else {
            ArrayToken { slot: Some(self.tix() as usize), stamp: (self.written_word() + 1) as usize }
        }
    }

    /// The reservation that `start_recv` makes on this state: the slot at the
    /// head and the stamp that frees it for the next lap (the head one lap on).
    pub closed spec fn recv_reservation(&self) -> ArrayToken {
        if self.messages().len() == 0 {
            ArrayToken { slot: None, stamp: 0 }
        } else {
            ArrayToken {
                slot: Some(self.hix() as usize),
                stamp: self.word(1 - self.lap_of(self.consumed_word()), self.hix()) as usize,
            }
        }
    }

    /// The word `w` one lap on.
    fn lap_advance(&self, w: usize) -> (r: usize)
        requires
            self.settled(),
            w < 2 * self.one_lap,
        ensures
            r == self.word(1 - self.lap_of(w as int), self.low_of(w as int)),
    {
        if w >= self.one_lap {
            w - self.one_lap
        } else {
            w + self.one_lap
        }
    }

    proof fn lemma_word_parts(&self, w: int)
        requires
            self.settled(),
            0 <= w < 2 * self.one_lap,
            !self.marked(w),
        ensures
            w == self.word(self.lap_of(w), self.index_of(w)),
    {
    }

    /// Reserves a slot for a send. Returns false when the ring is full (and
    /// connected), changing nothing. Otherwise fills the token with the
    /// reservation: on a disconnected channel an empty one (no slot, stamp
    /// 0), changing nothing else; else the slot at the tail and the stamp that
    /// marks it written, and the tail moves one on, for `write` to commit.
    pub fn start_send(&mut self, token: &mut Token) -> (r: bool)
        requires
            old(self).wf(),
        ensures
            r == (old(self).disconnected() || old(self).messages().len() < old(self).cap()),
            r ==> final(token).array == old(self).send_reservation(),
            r ==> (final(token).array.slot is None <==> old(self).disconnected()),
            r && final(token).array.slot is None ==> final(token).array.stamp == 0,
            r && !old(self).disconnected() ==> final(token).array.stamp == old(self).tail_word() + 1,
            !r ==> *final(token) == *old(token),
            !r || old(self).disconnected() ==> *final(self) == *old(self),
            r && !old(self).disconnected() ==> {
                &&& final(self).send_reserved()
                &&& final(self).tail_word() == old(self).next_word(old(self).tail_word())
                &&& final(self).head_word() == old(self).head_word()
                &&& final(self).messages() == old(self).messages()
                &&& final(self).cap() == old(self).cap()
                &&& final(self).send_reservation() == old(self).send_reservation()
            },
            final(token).list == old(token).list,
            final(token).zero == old(token).zero,
    {
        let tail = *self.tail.get();
        if self.is_marked(tail) {
            token.array = ArrayToken { slot: None, stamp: 0 };
            return true;
        }
        let index = self.index_part(tail);
        let stamp = self.buffer[index].stamp;
        proof {
            self.lemma_word_parts(tail as int);
            assert(self.stamp_ok(index as int));
        }
        if tail == stamp {
            // The tail and the stamp match: the slot is free in this lap.
            let new_tail = self.successor(tail, index);
            token.array = ArrayToken { slot: Some(index), stamp: tail + 1 };
            let ghost old_self = *self;
            self.tail.set(new_tail);
            assert(self.messages() =~= old_self.messages());
            assert forall|i: int| 0 <= i < self.cap implies (#[trigger] self.buffer@[i].msg is Some
                <==> self.occupied(i)) by {
                assert(old_self.buffer@[i].msg is Some <==> old_self.occupied(i));
            }
            assert forall|i: int| 0 <= i < self.cap implies #[trigger] self.stamp_ok(i) by {
                assert(old_self.stamp_ok(i));
            }
            assert(self.settled());
            assert(self.count() == old_self.count());
            assert(old_self.count() < self.cap);
            assert(self.send_reserved());
            assert(self.send_reservation() == old_self.send_reservation());
            return true;
        }
        // The slot still holds the message of the previous lap: the head lags
        // one lap behind the tail, and the ring is full.
        false
    }

    fn is_marked(&self, w: usize) -> (r: bool)
        requires
            self.settled(),
            w < 2 * self.one_lap,
        ensures
            r == self.marked(w as int),
        opens_invariants none
        no_unwind
    {
        let low = if w >= self.one_lap {
            w - self.one_lap
        } else {
            w
        };
        low >= self.mark_bit
    }

    /// Commits a reservation of `start_send`: stores the message in the
    /// reserved slot and stamps it written; or hands the message back when the
    /// reservation is empty.
    pub fn write(&mut self, token: &Token, msg: T) -> (r: Result<(), T>)
        requires
            (token.array.slot is None && old(self).wf()) || (old(self).send_reserved()
                && token.array == old(self).send_reservation()),
        ensures
            final(self).wf(),
            token.array.slot is None ==> r == Err::<(), T>(msg) && *final(self) == *old(self),
            token.array.slot is Some ==> {
                &&& r is Ok
                &&& final(self).messages() == old(self).messages().push(msg)
                &&& final(self).cap() == old(self).cap()
                &&& !final(self).disconnected()
                &&& final(self).tail_word() == old(self).tail_word()
                &&& final(self).head_word() == old(self).head_word()
            },
    {
        match token.array.slot {
            None => Err(msg),
            Some(index) => {
                let ghost old_self = *self;
                let ghost n = old_self.count();
                let tail = self.written;
                proof {
                    old_self.lemma_word_parts(tail as int);
                }
                let new_tail = self.successor(tail, index);
                self.buffer.set(index, Slot { stamp: token.array.stamp, msg: Some(msg) });
                self.written = new_tail;
                proof {
                    assert(self.count() == n + 1);
                    assert forall|i: int| 0 <= i < self.cap implies (#[trigger] self.buffer@[i].msg is Some
                        <==> self.occupied(i)) by {
                        assert(old_self.buffer@[i].msg is Some <==> old_self.occupied(i));
                    }
                    assert forall|i: int| 0 <= i < self.cap implies #[trigger] self.stamp_ok(i) by {
                        assert(old_self.stamp_ok(i));
                    }
                    assert forall|k: int| 0 <= k < n implies self.slot_at(k) == old_self.slot_at(k)
                        && #[trigger] self.messages()[k] == old_self.messages()[k] by {}
                    assert(self.messages() =~= old_self.messages().push(msg));
                }
                Ok(())
            },
        }
    }

    /// Reserves the oldest message for a receive. Returns false when the ring
    /// is empty and connected, changing nothing. Otherwise fills the token
    /// with the reservation: on an empty, disconnected channel an empty one
    /// (no slot, stamp 0), changing nothing else; else the slot at the head
    /// and the stamp that frees it for the next lap, and the head moves one
    /// on, for `read` to commit.
    pub fn start_recv(&mut self, token: &mut Token) -> (r: bool)
        requires
            old(self).wf(),
        ensures
            r == (old(self).disconnected() || old(self).messages().len() > 0),
            r ==> final(token).array == old(self).recv_reservation(),
            r ==> (final(token).array.slot is None <==> old(self).messages().len() == 0),
            r && final(token).array.slot is None ==> old(self).disconnected()
                && final(token).array.stamp == 0,
            !r ==> *final(token) == *old(token),
            !r || old(self).messages().len() == 0 ==> *final(self) == *old(self),
            r && old(self).messages().len() > 0 ==> {
                &&& final(self).recv_reserved()
                &&& final(self).head_word() == old(self).next_word(old(self).head_word())
                &&& final(self).tail_word() == old(self).tail_word()
                &&& final(self).messages() == old(self).messages()
                &&& final(self).cap() == old(self).cap()
                &&& final(self).disconnected() == old(self).disconnected()
                &&& final(self).recv_reservation() == old(self).recv_reservation()
            },
            final(token).list == old(token).list,
            final(token).zero == old(token).zero,
    {
        let head = *self.head.get();
        let index = self.index_part(head);
        let stamp = self.buffer[index].stamp;
        proof {
            self.lemma_word_parts(head as int);
            assert(self.stamp_ok(index as int));
        }
        if head + 1 == stamp {
            // The stamp is one past the head: the slot holds a message.
            let new_head = self.successor(head, index);
            token.array = ArrayToken { slot: Some(index), stamp: self.lap_advance(head) };
            let ghost old_self = *self;
            self.head.set(new_head);
            assert(self.messages() =~= old_self.messages());
            assert forall|i: int| 0 <= i < self.cap implies (#[trigger] self.buffer@[i].msg is Some
                <==> self.occupied(i)) by {
                assert(old_self.buffer@[i].msg is Some <==> old_self.occupied(i));
            }
            assert forall|i: int| 0 <= i < self.cap implies #[trigger] self.stamp_ok(i) by {
                assert(old_self.stamp_ok(i));
            }
            assert(self.settled());
            assert(self.count() == old_self.count());
            assert(old_self.count() > 0);
            assert(self.recv_reserved());
            assert(self.recv_reservation() == old_self.recv_reservation());
            return true;
        }
        let tail = *self.tail.get();
        if self.unmarked(tail) == head {
            // The tail equals the head: the ring is empty.
            if self.is_marked(tail) {
                token.array = ArrayToken { slot: None, stamp: 0 };
                return true;
            }
        }
        false
    }

    /// Commits a reservation of `start_recv`: takes the oldest message out and
    /// stamps the slot free for the next lap; or fails when the reservation
    /// is empty.
    pub fn read(&mut self, token: &Token) -> (r: Result<T, ()>)
        requires
            (token.array.slot is None && old(self).wf()) || (old(self).recv_reserved()
                && token.array == old(self).recv_reservation()),
        ensures
            final(self).wf(),
            token.array.slot is None ==> r is Err && *final(self) == *old(self),
            token.array.slot is Some ==> {
                &&& r == Ok::<T, ()>(old(self).messages()[0])
                &&& final(self).messages() == old(self).messages().drop_first()
                &&& final(self).cap() == old(self).cap()
                &&& final(self).disconnected() == old(self).disconnected()
                &&& final(self).tail_word() == old(self).tail_word()
                &&& final(self).head_word() == old(self).head_word()
            },
    {
        match token.array.slot {
            None => Err(()),
            Some(index) => {
                let ghost old_self = *self;
                let ghost n = old_self.count();
                assert(old_self.buffer@[index as int].msg is Some);
                let head = self.consumed;
                proof {
                    old_self.lemma_word_parts(head as int);
                }
                let new_head = self.successor(head, index);
                let mut taken: Option<T> = None;
                std::mem::swap(&mut taken, &mut self.buffer[index].msg);
                self.buffer[index].stamp = token.array.stamp;
                self.consumed = new_head;
                proof {
                    assert(self.count() == n - 1);
                    assert forall|i: int| 0 <= i < self.cap implies (#[trigger] self.buffer@[i].msg is Some
                        <==> self.occupied(i)) by {
                        assert(old_self.buffer@[i].msg is Some <==> old_self.occupied(i));
                    }
                    assert forall|i: int| 0 <= i < self.cap implies #[trigger] self.stamp_ok(i) by {
                        assert(old_self.stamp_ok(i));
                    }
                    assert forall|k: int| 0 <= k < n - 1 implies self.slot_at(k) == old_self.slot_at(
                        k + 1,
                    ) && #[trigger] self.messages()[k] == old_self.messages()[k + 1] by {}
                    assert(self.messages() =~= old_self.messages().drop_first());
                    assert(old_self.slot_at(0) == index);
                }
                match taken {
                    Some(m) => Ok(m),
                    None => Err(()),
                }
            },
        }
    }

    /// Sends without blocking.
    pub fn try_send(&mut self, msg: T) -> (r: Result<(), TrySendError<T>>)
        requires
            old(self).wf(),
        ensures
            final(self).wf(),
            final(self).cap() == old(self).cap(),
            final(self).disconnected() == old(self).disconnected(),
            old(self).disconnected() ==> r == Err::<(), _>(TrySendError::Disconnected(msg))
                && final(self).messages() == old(self).messages(),
            !old(self).disconnected() && old(self).messages().len() == old(self).cap() ==> r
                == Err::<(), _>(TrySendError::Full(msg)) && final(self).messages() == old(
                self,
            ).messages(),
            !old(self).disconnected() && old(self).messages().len() < old(self).cap() ==> r is Ok
                && final(self).messages() == old(self).messages().push(msg),
    {
        proof {
            self.lemma_count_bounded();
        }
        let mut token = Token::new();
        if self.start_send(&mut token) {
            match self.write(&token, msg) {
                Ok(()) => Ok(()),
                Err(m) => Err(TrySendError::Disconnected(m)),
            }
        } else {
            Err(TrySendError::Full(msg))
        }
    }

    /// Receives without blocking: messages still held are handed out after a
    /// disconnect too.
    pub fn try_recv(&mut self) -> (r: Result<T, TryRecvError>)
        requires
            old(self).wf(),
        ensures
            final(self).wf(),
            final(self).cap() == old(self).cap(),
            final(self).disconnected() == old(self).disconnected(),
            old(self).messages().len() > 0 ==> r == Ok::<T, TryRecvError>(old(self).messages()[0])
                && final(self).messages() == old(self).messages().drop_first(),
            old(self).messages().len() == 0 ==> final(self).messages() == old(self).messages() && r
                == Err::<T, TryRecvError>(
                if old(self).disconnected() {
                    TryRecvError::Disconnected
                } else {
                    TryRecvError::Empty
                },
            ),
    {
        let mut token = Token::new();
        if self.start_recv(&mut token) {
            match self.read(&token) {
                Ok(m) => Ok(m),
                Err(()) => Err(TryRecvError::Disconnected),
            }
        } else {
            Err(TryRecvError::Empty)
        }
    }

    /// The number of messages held, from the indices of head and tail.
    pub fn len(&self) -> (r: usize)
        requires
            self.wf(),
        ensures
            r == self.messages().len(),
    {
        let tail = self.written;
        let head = self.consumed;
        let hix = self.index_part(head);
        let tix = self.index_part(tail);
        if hix < tix {
            tix - hix
        } else if hix > tix {
            self.cap - hix + tix
        } else if self.unmarked(tail) == head {
            0
        } else {
            self.cap
        }
    }

    /// The capacity.
    pub fn capacity(&self) -> (r: Option<usize>)
        requires
            self.wf(),
        ensures
            r == Some(self.cap() as usize),
    {
        Some(self.cap)
    }

    /// Sets the mark bit of the tail. Returns whether this call did it.
    pub fn disconnect(&mut self) -> (r: bool)
        requires
            old(self).wf(),
        ensures
            final(self).wf(),
            final(self).cap() == old(self).cap(),
            final(self).messages() == old(self).messages(),
            final(self).disconnected(),
            r == !old(self).disconnected(),
        opens_invariants none
        no_unwind
    {
        let tail = self.written;
        if self.is_marked(tail) {
            false
        } else {
            let ghost old_self = *self;
            self.written = tail + self.mark_bit;
            self.tail.set(tail + self.mark_bit);
            proof {
                assert(self.tix() == old_self.tix());
                assert(self.lap_of(self.written_word()) == old_self.lap_of(old_self.written_word()));
                assert forall|i: int| 0 <= i < self.cap implies (#[trigger] self.buffer@[i].msg is Some
                    <==> self.occupied(i)) by {
                    assert(old_self.buffer@[i].msg is Some <==> old_self.occupied(i));
                }
                assert forall|i: int| 0 <= i < self.cap implies #[trigger] self.stamp_ok(i) by {
                    assert(old_self.stamp_ok(i));
                }
            }
            assert(self.messages() =~= old_self.messages());
            true
        }
    }

    /// Whether the channel is disconnected.
    pub fn is_disconnected(&self) -> (r: bool)
        requires
            self.wf(),
        ensures
            r == self.disconnected(),
    {
        self.is_marked(self.written)
    }

    /// Whether no message is held.
    pub fn is_empty(&self) -> (r: bool)
        requires
            self.wf(),
        ensures
            r == (self.messages().len() == 0),
    {
        self.unmarked(self.written) == self.consumed
    }

    /// Whether the ring is full: the head lags one lap behind the tail.
    pub fn is_full(&self) -> (r: bool)
        requires
            self.wf(),
        ensures
            r == (self.messages().len() == self.cap()),
    {
        proof {
            self.lemma_count_bounded();
        }
        let head = self.consumed;
        let tail = self.unmarked(self.written);
        self.next_lap(head) + self.index_part(head) == tail
    }

    /// At no point does a bounded channel hold more messages than its capacity.
    pub proof fn lemma_count_bounded(&self)
        requires
            self.wf(),
        ensures
            self.messages().len() <= self.cap(),
    {
    }
}

/// The least power of two above `cap`, found by doubling.
fn next_power_of_two_above(cap: usize) -> (r: usize)
    requires
        0 < cap <= MAX_CAP,
    ensures
        least_pow2_above(cap as nat, r as nat),
        r <= 2 * MAX_CAP + 2,
{
    let mut p: usize = 1;
    while p <= cap
        invariant
            0 < cap <= MAX_CAP,
            is_pow2(p as nat),
            1 <= p,
            p <= 1 || p / 2 <= cap,
            p <= cap + 1 || p / 2 <= cap,
            p <= 2 * MAX_CAP + 2,
        decreases 2 * MAX_CAP + 2 - p,
    {
        proof {
            assert(is_pow2((2 * p) as nat)) by {
                assert((2 * p) as nat / 2 == p as nat);
            }
        }
        p = p * 2;
    }
    p
}

} // verus!
