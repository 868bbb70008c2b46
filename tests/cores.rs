use mpmc::array;
use mpmc::context::Context;
use mpmc::list;
use mpmc::select::{Operation, Selected, Token};
use mpmc::utils::{Backoff, CachePadded};
use mpmc::waker::Waker;
use mpmc::zero;
use mpmc::{RecvError, RecvTimeoutError, SendError, SendTimeoutError, TryRecvError, TrySendError};

#[test]
fn array_ring_wraps_around_laps() {
    let mut c = array::Channel::<u32>::with_capacity(3);
    assert_eq!(c.capacity(), Some(3));
    for round in 0..5u32 {
        for k in 0..3u32 {
            assert_eq!(c.try_send(round * 10 + k), Ok(()));
        }
        assert!(c.is_full());
        assert_eq!(c.len(), 3);
        assert_eq!(c.try_send(99), Err(TrySendError::Full(99)));
        for k in 0..3u32 {
            assert_eq!(c.try_recv(), Ok(round * 10 + k));
        }
        assert!(c.is_empty());
        assert_eq!(c.try_recv(), Err(TryRecvError::Empty));
    }
}

#[test]
fn array_len_across_the_wrap() {
    let mut c = array::Channel::<u32>::with_capacity(4);
    for v in 0..4u32 {
        c.try_send(v).unwrap();
    }
    assert_eq!(c.try_recv(), Ok(0));
    assert_eq!(c.try_recv(), Ok(1));
    c.try_send(4).unwrap();
    assert_eq!(c.len(), 3);
    c.try_send(5).unwrap();
    assert_eq!(c.len(), 4);
    assert!(c.is_full());
    assert_eq!(c.try_recv(), Ok(2));
    assert_eq!(c.len(), 3);
}

#[test]
fn array_disconnect_drains_then_reports() {
    let mut c = array::Channel::<u32>::with_capacity(2);
    c.try_send(7).unwrap();
    assert!(c.disconnect());
    assert!(!c.disconnect());
    assert!(c.is_disconnected());
    assert_eq!(c.try_send(8), Err(TrySendError::Disconnected(8)));
    assert_eq!(c.try_recv(), Ok(7));
    assert_eq!(c.try_recv(), Err(TryRecvError::Disconnected));
}

#[test]
fn array_reservation_then_commit() {
    let mut c = array::Channel::<u32>::with_capacity(1);
    let mut t = Token::new();
    assert!(c.start_send(&mut t));
    assert_eq!(t.array.slot, Some(0));
    assert_eq!(c.write(&t, 5), Ok(()));
    let mut t = Token::new();
    assert!(!c.start_send(&mut t));
    let mut t = Token::new();
    assert!(c.start_recv(&mut t));
    assert_eq!(c.read(&t), Ok(5));
    let mut t = Token::new();
    assert!(!c.start_recv(&mut t));
}

#[test]
fn list_crosses_blocks_in_order() {
    let mut c = list::Channel::<u32>::new();
    assert_eq!(c.capacity(), None);
    assert!(!c.is_full());
    for v in 0..100u32 {
        assert_eq!(c.try_send(v), Ok(()));
    }
    assert_eq!(c.len(), 100);
    for v in 0..70u32 {
        assert_eq!(c.try_recv(), Ok(v));
    }
    assert_eq!(c.len(), 30);
    for v in 100..140u32 {
        c.try_send(v).unwrap();
    }
    assert_eq!(c.len(), 70);
    for v in 70..140u32 {
        assert_eq!(c.try_recv(), Ok(v));
    }
    assert!(c.is_empty());
    assert_eq!(c.try_recv(), Err(TryRecvError::Empty));
}

#[test]
fn list_block_boundary_lengths() {
    let mut c = list::Channel::<u8>::new();
    for k in 0..31u32 {
        c.try_send(k as u8).unwrap();
        assert_eq!(c.len(), (k + 1) as usize);
    }
    c.try_send(31).unwrap();
    assert_eq!(c.len(), 32);
    for k in 0..31u8 {
        assert_eq!(c.try_recv(), Ok(k));
    }
    assert_eq!(c.len(), 1);
    assert_eq!(c.try_recv(), Ok(31));
    assert_eq!(c.len(), 0);
}

#[test]
fn list_disconnects() {
    let mut c = list::Channel::<u32>::new();
    c.try_send(1).unwrap();
    assert!(c.disconnect_senders());
    assert!(!c.disconnect_receivers());
    assert!(c.is_disconnected());
    assert_eq!(c.try_recv(), Ok(1));
    assert_eq!(c.try_recv(), Err(TryRecvError::Disconnected));

    let mut c = list::Channel::<u32>::new();
    c.try_send(1).unwrap();
    c.try_send(2).unwrap();
    assert_eq!(c.len(), 2);
    assert!(c.disconnect_receivers());
    assert_eq!(c.len(), 0);
    assert!(c.is_empty());
    assert_eq!(c.try_send(3), Err(TrySendError::Disconnected(3)));
    assert_eq!(c.len(), 0);
}

#[test]
fn zero_pairs_with_registered_operations() {
    let mut c = zero::Channel::<u32>::new();
    assert_eq!(c.len(), 0);
    assert_eq!(c.capacity(), Some(0));
    assert!(c.is_empty());
    assert!(c.is_full());
    assert_eq!(c.try_send(1, 0), Err(TrySendError::Full(1)));
    assert_eq!(c.try_recv(0), Err(TryRecvError::Empty));
    let a = c.fresh_oper().unwrap();
    c.register_recv(a);
    assert_eq!(c.poll_recv(a), None);
    assert_eq!(c.try_send(5, 0), Ok(()));
    assert_eq!(c.poll_recv(a), Some(Ok(5)));
    let b = c.fresh_oper().unwrap();
    // The id of a collected operation is free again.
    assert_eq!(a, b);
    c.register_send(b, 6);
    assert_eq!(c.poll_send(b), None);
    assert_eq!(c.try_recv(0), Ok(6));
    assert_eq!(c.poll_send(b), Some(Ok(())));
}

#[test]
fn zero_abort_and_disconnect() {
    let mut c = zero::Channel::<u32>::new();
    let a = c.fresh_oper().unwrap();
    c.register_send(a, 3);
    assert_eq!(c.abort_send(a), Err(SendTimeoutError::Timeout(3)));
    assert_eq!(c.try_recv(0), Err(TryRecvError::Empty));
    let b = c.fresh_oper().unwrap();
    c.register_recv(b);
    assert_eq!(c.abort_recv(b), Err(RecvTimeoutError::Timeout));
    let d = c.fresh_oper().unwrap();
    c.register_send(d, 4);
    let e = c.fresh_oper().unwrap();
    assert!(c.disconnect());
    assert!(!c.disconnect());
    assert_eq!(c.poll_send(d), Some(Err(SendTimeoutError::Disconnected(4))));
    c.register_recv(e);
    assert_eq!(c.poll_recv(e), Some(Err(RecvTimeoutError::Disconnected)));
    assert_eq!(c.try_send(9, 0), Err(TrySendError::Disconnected(9)));
    assert_eq!(c.try_recv(0), Err(TryRecvError::Disconnected));
}

#[test]
fn waker_selects_first_waiting_entry_of_another_owner() {
    let mut w = Waker::new();
    assert!(w.is_empty());
    w.register(Operation::hook(10), Context::new(10));
    w.register_with_packet(Operation::hook(11), 11, Context::new(11));
    assert!(w.try_select(10).map(|e| e.oper) == Some(Operation::hook(11)));
    let e = w.try_select(0).unwrap();
    assert_eq!(e.oper, Operation::hook(10));
    assert_eq!(e.cx.selection(), Selected::Operation(Operation::hook(10)));
    assert!(w.try_select(0).is_none());
    w.register(Operation::hook(12), Context::new(12));
    w.disconnect();
    assert!(w.try_select(0).is_none());
    let e = w.unregister(Operation::hook(12)).unwrap();
    assert_eq!(e.cx.selection(), Selected::Disconnected);
    assert!(w.unregister(Operation::hook(12)).is_none());
    assert!(w.is_empty());
}

#[test]
fn context_selects_once() {
    let mut cx = Context::new(7);
    assert_eq!(cx.thread_id(), 7);
    assert_eq!(cx.selection(), Selected::Waiting);
    assert_eq!(cx.try_select(Selected::Aborted), Ok(()));
    assert_eq!(cx.try_select(Selected::Disconnected), Err(Selected::Aborted));
    cx.store_packet(5);
    cx.reset();
    assert_eq!(cx.selection(), Selected::Waiting);
    assert_eq!(cx.try_select(Selected::Operation(Operation::hook(9))), Ok(()));
    assert_eq!(cx.selection(), Selected::Operation(Operation::hook(9)));
}

#[test]
fn selected_words() {
    assert_eq!(Selected::from(0usize), Selected::Waiting);
    assert_eq!(Selected::from(1usize), Selected::Aborted);
    assert_eq!(Selected::from(2usize), Selected::Disconnected);
    assert_eq!(Selected::from(77usize), Selected::Operation(Operation(77)));
    let w: usize = Selected::Operation(Operation(77)).into();
    assert_eq!(w, 77);
    let w: usize = Selected::Disconnected.into();
    assert_eq!(w, 2);
    assert_eq!(Operation::hook(3).0, 3);
}

#[test]
fn backoff_doubles_up_to_the_limit() {
    let mut b = Backoff::new();
    let mut spins = Vec::new();
    for _ in 0..9 {
        assert_eq!(b.is_completed(), b.step() > 6);
        spins.push(b.spin_light());
    }
    assert_eq!(spins, vec![1, 2, 4, 8, 16, 32, 64, 64, 64]);
    assert!(b.is_completed());
    assert_eq!(b.spin_heavy(), 64);
    assert_eq!(b.step(), 10);
}

#[test]
fn cache_padded_holds_its_value() {
    let mut p = CachePadded::new(5u64);
    assert_eq!(*p.get(), 5);
    p.set(6);
    assert_eq!(p.into_inner(), 6);
}

#[test]
fn error_conversions_and_texts() {
    assert_eq!(SendTimeoutError::from(SendError(3)), SendTimeoutError::Disconnected(3));
    assert_eq!(TrySendError::from(SendError(4)), TrySendError::Disconnected(4));
    assert_eq!(TryRecvError::from(RecvError), TryRecvError::Disconnected);
    assert_eq!(RecvTimeoutError::from(RecvError), RecvTimeoutError::Disconnected);
    assert_eq!(SendTimeoutError::Timeout(1).into_inner(), 1);
    assert_eq!(TrySendError::Full(2).into_inner(), 2);
    assert_eq!(SendTimeoutError::Timeout(0).description(), "timed out waiting on send operation");
    assert_eq!(SendTimeoutError::Disconnected(0).description(), "sending on a disconnected channel");
    assert_eq!(SendError(0).description(), "sending on a closed channel");
    assert_eq!(TrySendError::Full(0).description(), "sending on a full channel");
    assert_eq!(TrySendError::Disconnected(0).description(), "sending on a closed channel");
    assert_eq!(RecvError.description(), "receiving on a closed channel");
    assert_eq!(TryRecvError::Empty.description(), "receiving on an empty channel");
    assert_eq!(TryRecvError::Disconnected.description(), "receiving on a closed channel");
    assert_eq!(RecvTimeoutError::Timeout.description(), "timed out waiting on channel");
    assert_eq!(
        RecvTimeoutError::Disconnected.description(),
        "channel is empty and sending half is closed"
    );
}
