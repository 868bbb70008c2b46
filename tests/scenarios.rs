use mpmc::counter::{Flavor, RecvOp, SendOp};
use mpmc::{channel, sync_channel, RecvTimeoutError, SendTimeoutError, TryRecvError, TrySendError};
use std::time::{Duration, Instant};

#[test]
fn bounded_one_second_send_waits_for_receive() {
    let (s, r) = sync_channel::<i32>(1);
    assert_eq!(s.send(10), Ok(()));
    // A second send has to wait: with nobody receiving it times out and
    // hands the value back.
    assert_eq!(s.send_timeout(20, Duration::from_millis(20)), Err(SendTimeoutError::Timeout(20)));
    assert_eq!(r.recv(), Ok(10));
    assert_eq!(s.send(20), Ok(()));
    assert_eq!(r.recv(), Ok(20));
}

#[test]
fn unbounded_four_senders_two_receivers() {
    let (s, r) = channel::<(usize, usize)>();
    let senders: Vec<_> = (0..4).map(|_| s.clone()).collect();
    drop(s);
    let receivers = vec![r.clone(), r];
    let mut got: Vec<Vec<(usize, usize)>> = vec![Vec::new(), Vec::new()];
    for v in 0..1000usize {
        for (id, s) in senders.iter().enumerate() {
            s.send((id, v)).unwrap();
        }
        let k = v % 2;
        while let Ok(x) = receivers[k].try_recv() {
            got[k].push(x);
            if got[k].len() % 3 == 0 {
                break;
            }
        }
    }
    drop(senders);
    for k in 0..2 {
        loop {
            match receivers[k].recv() {
                Ok(x) => got[k].push(x),
                Err(_) => break,
            }
        }
    }
    let mut all = Vec::new();
    for g in &got {
        let mut last = [None::<usize>; 4];
        for &(id, v) in g {
            if let Some(prev) = last[id] {
                assert!(v > prev);
            }
            last[id] = Some(v);
        }
        all.extend(g.iter().copied());
    }
    assert_eq!(all.len(), 4000);
    all.sort();
    let mut expected = Vec::new();
    for id in 0..4usize {
        for v in 0..1000usize {
            expected.push((id, v));
        }
    }
    assert_eq!(all, expected);
}

#[test]
fn rendezvous_try_operations_without_counterpart() {
    let (s, r) = sync_channel::<i32>(0);
    assert_eq!(s.try_send(1), Err(TrySendError::Full(1)));
    assert_eq!(r.try_recv(), Err(TryRecvError::Empty));
}

#[test]
fn rendezvous_registered_receiver_gets_the_value() {
    // A receiver blocked in `recv` has registered itself; a send then pairs
    // with it, and the receiver's next look finds the value.
    let mut chan = Flavor::<i32>::placeholder();
    let mut recv = RecvOp::Pending;
    assert!(chan.poll_recv(&mut recv));
    assert!(matches!(recv, RecvOp::Registered(_)));
    assert_eq!(chan.try_send(1), Ok(()));
    assert!(!chan.poll_recv(&mut recv));
    assert!(matches!(recv, RecvOp::Done(Ok(1))));
}

#[test]
fn rendezvous_blocked_sender_completes_after_receive() {
    let mut chan = Flavor::<i32>::placeholder();
    let mut send = SendOp::Pending(42);
    assert!(chan.poll_send(&mut send));
    assert!(matches!(send, SendOp::Registered(_)));
    // Not consumed yet: still waiting.
    assert!(chan.poll_send(&mut send));
    assert_eq!(chan.try_recv(), Ok(42));
    assert!(!chan.poll_send(&mut send));
    assert!(matches!(send, SendOp::Done(Ok(()))));
}

#[test]
fn bounded_two_full_then_disconnected() {
    let (s, r) = sync_channel::<i32>(2);
    assert_eq!(s.send(1), Ok(()));
    assert_eq!(s.send(2), Ok(()));
    assert_eq!(s.try_send(3), Err(TrySendError::Full(3)));
    drop(r);
    assert_eq!(s.try_send(3), Err(TrySendError::Disconnected(3)));
}

#[test]
fn unbounded_drains_then_disconnected() {
    let (s, r) = channel::<i32>();
    for v in 1..=10 {
        s.send(v).unwrap();
    }
    drop(s);
    for v in 1..=10 {
        assert_eq!(r.recv(), Ok(v));
    }
    assert!(r.recv().is_err());
    assert_eq!(r.try_recv(), Err(TryRecvError::Disconnected));
}

#[test]
fn bounded_send_timeout_while_full() {
    let (s, r) = sync_channel::<i32>(1);
    s.send(1).unwrap();
    let start = Instant::now();
    assert_eq!(s.send_timeout(99, Duration::from_millis(50)), Err(SendTimeoutError::Timeout(99)));
    assert!(start.elapsed() >= Duration::from_millis(50));
    assert_eq!(s.len(), 1);
    assert_eq!(r.recv(), Ok(1));
}

#[test]
fn recv_timeout_consumes_nothing() {
    let (s, r) = channel::<i32>();
    assert_eq!(r.recv_timeout(Duration::from_millis(20)), Err(RecvTimeoutError::Timeout));
    s.send(5).unwrap();
    assert_eq!(r.recv_timeout(Duration::from_millis(20)), Ok(5));
    assert_eq!(r.len(), 0);
}

#[test]
fn rendezvous_send_timeout_keeps_message() {
    let (s, r) = sync_channel::<i32>(0);
    assert_eq!(s.send_timeout(7, Duration::from_millis(20)), Err(SendTimeoutError::Timeout(7)));
    assert_eq!(r.try_recv(), Err(TryRecvError::Empty));
    assert_eq!(r.recv_timeout(Duration::from_millis(20)), Err(RecvTimeoutError::Timeout));
}

#[test]
fn rendezvous_disconnect_releases_registered_sender() {
    let mut chan = Flavor::<i32>::placeholder();
    let mut send = SendOp::Pending(8);
    assert!(chan.poll_send(&mut send));
    assert!(chan.disconnect_receivers());
    assert!(!chan.poll_send(&mut send));
    assert!(matches!(send, SendOp::Done(Err(SendTimeoutError::Disconnected(8)))));
}

#[test]
fn rendezvous_abort_returns_message() {
    let mut chan = Flavor::<i32>::placeholder();
    let mut send = SendOp::Pending(9);
    assert!(chan.poll_send(&mut send));
    chan.abort_send(&mut send);
    assert!(matches!(send, SendOp::Done(Err(SendTimeoutError::Timeout(9)))));
    assert_eq!(chan.try_recv(), Err(TryRecvError::Empty));
}

#[test]
fn disconnect_after_last_sender_ends_receives() {
    let (s, r) = channel::<i32>();
    let r2 = r.clone();
    s.send(3).unwrap();
    drop(s);
    assert_eq!(r.recv(), Ok(3));
    assert!(r2.recv().is_err());
    assert_eq!(r.recv_timeout(Duration::from_secs(5)), Err(RecvTimeoutError::Disconnected));
}

#[test]
fn rendezvous_send_after_receivers_gone() {
    let (s, r) = sync_channel::<i32>(0);
    drop(r);
    assert_eq!(s.send(8), Err(mpmc::SendError(8)));
    assert_eq!(s.send_timeout(8, Duration::from_secs(5)), Err(SendTimeoutError::Disconnected(8)));
}

#[test]
fn same_channel_clone_and_distinct() {
    let (s, r) = channel::<i32>();
    let (s2, r2) = channel::<i32>();
    assert!(s.same_channel(&s.clone()));
    assert!(r.same_channel(&r.clone()));
    assert!(!s.same_channel(&s2));
    assert!(!r.same_channel(&r2));
    let (s3, _r3) = sync_channel::<i32>(3);
    let (s4, _r4) = sync_channel::<i32>(0);
    assert!(!s3.same_channel(&s4));
}

#[test]
fn capacities_and_fullness() {
    let (s, r) = channel::<i32>();
    assert_eq!(s.capacity(), None);
    assert!(!s.is_full());
    assert!(r.is_empty());
    let (s, r) = sync_channel::<i32>(3);
    assert_eq!(s.capacity(), Some(3));
    assert_eq!(r.capacity(), Some(3));
    s.send(1).unwrap();
    s.send(2).unwrap();
    s.send(3).unwrap();
    assert!(s.is_full());
    assert!(!r.is_empty());
    assert_eq!(r.len(), 3);
    let (s, r) = sync_channel::<i32>(0);
    assert_eq!(s.capacity(), Some(0));
    assert!(s.is_full());
    assert!(r.is_empty());
    assert_eq!(r.len(), 0);
}

#[test]
fn try_send_on_unbounded_after_receivers_gone() {
    let (s, r) = channel::<String>();
    s.send("a".to_string()).unwrap();
    assert_eq!(s.len(), 1);
    drop(r);
    assert_eq!(s.len(), 0);
    assert_eq!(s.try_send("b".to_string()), Err(TrySendError::Disconnected("b".to_string())));
    assert_eq!(s.len(), 0);
}

#[test]
fn bounded_len_never_exceeds_capacity() {
    let (s, r) = sync_channel::<u32>(4);
    for i in 0..10 {
        let _ = s.try_send(i);
        assert!(s.len() <= 4);
    }
    assert_eq!(r.len(), 4);
    for i in 0..4 {
        assert_eq!(r.try_recv(), Ok(i));
    }
    assert_eq!(r.try_recv(), Err(TryRecvError::Empty));
}

#[test]
fn recv_deadline_in_the_past_times_out() {
    let (_s, r) = sync_channel::<u8>(2);
    assert_eq!(r.recv_deadline(Instant::now()), Err(RecvTimeoutError::Timeout));
}

#[test]
fn rendezvous_send_in_place_pairs_with_registered_receiver() {
    let mut chan = Flavor::<i32>::placeholder();
    let mut send = SendOp::Pending(5);
    assert!(chan.poll_send_in_place(&mut send));
    assert!(matches!(send, SendOp::Pending(5)));
    let mut recv = RecvOp::Pending;
    assert!(chan.poll_recv(&mut recv));
    assert!(!chan.poll_send_in_place(&mut send));
    assert!(matches!(send, SendOp::Done(Ok(()))));
    assert!(!chan.poll_recv(&mut recv));
    assert!(matches!(recv, RecvOp::Done(Ok(5))));
}

#[test]
fn unbounded_discards_when_receivers_leave() {
    let (s, r) = channel::<Vec<u8>>();
    s.send(vec![1]).unwrap();
    s.send(vec![2]).unwrap();
    let r2 = r.clone();
    drop(r);
    assert_eq!(s.len(), 2);
    drop(r2);
    assert_eq!(s.len(), 0);
    assert!(s.is_empty());
    assert_eq!(s.send(vec![3]), Err(mpmc::SendError(vec![3])));
}
