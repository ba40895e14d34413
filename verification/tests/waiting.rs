use greeter::async_io::{Async, Attempt, IoAction, IoEvent};
use greeter::parking::{Completion, Interest, Kind, Parking, Registration, WaitPlan};
use greeter::runtime::Runtime;
use std::collections::VecDeque;
use std::io::{Error, ErrorKind};
use std::sync::atomic::{AtomicUsize, Ordering};
use std::sync::Arc;
use std::task::{Wake, Waker};

struct Count(AtomicUsize);

impl Wake for Count {
    fn wake(self: Arc<Self>) {
        self.0.fetch_add(1, Ordering::SeqCst);
    }
}

fn counter() -> (Arc<Count>, Waker) {
    let count = Arc::new(Count(AtomicUsize::new(0)));
    let waker = Waker::from(count.clone());
    (count, waker)
}

fn woken(count: &Arc<Count>) -> usize {
    count.0.load(Ordering::SeqCst)
}

fn wake_all(wakers: Vec<Waker>) -> usize {
    let n = wakers.len();
    for w in wakers {
        w.wake();
    }
    n
}

fn parked(kind: Kind) -> Parking {
    let mut parking = Parking::new();
    assert_eq!(parking.kind(), None);
    let _ = Runtime::new(kind).run::<u32>(&mut parking);
    assert_eq!(parking.kind(), Some(kind));
    parking
}

fn reports(list: Vec<(u64, Result<usize, Error>)>) -> VecDeque<(u64, Result<usize, Error>)> {
    list.into_iter().collect()
}

#[test]
fn sockets_are_set_up_by_strategy() {
    let cases = [
        (Kind::Epoll, true, true),
        (Kind::UringPoll, true, false),
        (Kind::Async, false, false),
        (Kind::Hybrid, false, false),
    ];
    for (kind, nonblocking, polled) in cases {
        let parking = parked(kind);
        assert_eq!(parking.add(), Registration { nonblocking, polled });
        assert_eq!(parking.delete(), polled);
        let (socket, how) = Async::new(&parking, 9, 2);
        assert_eq!(how, Registration { nonblocking, polled });
        assert_eq!((socket.raw_fd, socket.flags), (9, 2));
        assert_eq!(kind.is_by_readiness(), nonblocking);
    }
}

#[test]
fn one_flag_is_set_or_cleared() {
    let socket = Async { raw_fd: 3, flags: 0o102 };
    assert_eq!(socket.set_nonblocking(true, 0o4000), 0o4102);
    assert_eq!(socket.set_nonblocking(false, 0o4000), 0o102);
    let socket = Async { raw_fd: 3, flags: 0o4102 };
    assert_eq!(socket.set_nonblocking(true, 0o4000), 0o4102);
    assert_eq!(socket.set_nonblocking(false, 0o4000), 0o102);
}

#[test]
fn waiting_depends_on_the_strategy() {
    for sleepable in [true, false] {
        assert_eq!(parked(Kind::Epoll).wait(sleepable), WaitPlan::Poller);
        assert_eq!(parked(Kind::UringPoll).wait(sleepable), WaitPlan::Ring);
    }
    for kind in [Kind::Async, Kind::Hybrid] {
        assert_eq!(parked(kind).wait(true), WaitPlan::Ring);
        assert_eq!(parked(kind).wait(false), WaitPlan::RingNow);
    }
}

#[test]
fn a_completion_keeps_its_result_and_gives_up_its_waker() {
    let (count, waker) = counter();
    let mut c = Completion::new(Some(waker));
    assert!(c.result.is_none());
    c.complete(Ok(7)).unwrap().wake();
    assert_eq!(woken(&count), 1);
    assert!(c.waker.is_none());
    assert!(matches!(c.result, Some(Ok(7))));
    assert!(c.complete(Ok(8)).is_none());
    assert!(matches!(c.result, Some(Ok(8))));
}

#[test]
fn readiness_tries_and_then_waits() {
    for kind in [Kind::Epoll, Kind::UringPoll] {
        let mut parking = parked(kind);
        let socket = Async { raw_fd: 5, flags: 0 };
        let (count, waker) = counter();
        let step = socket.poll_read(&mut parking, waker.clone(), IoEvent::Polled);
        assert!(matches!(step.action, IoAction::Try));
        let step = socket.poll_read(&mut parking, waker.clone(), IoEvent::Tried(Attempt::WouldBlock));
        let expected = if kind == Kind::Epoll {
            Interest::Poller { readable: true }
        } else {
            Interest::Ring { readable: true }
        };
        assert!(matches!(step.action, IoAction::Park(i) if i == expected));
        assert!(socket.has_completion(&parking));
        // Reports for nobody, and one report twice.
        let wakers = parking.ready(&vec![6, 5, 5]).ok().unwrap();
        assert_eq!(wake_all(wakers), 1);
        assert_eq!(woken(&count), 1);
        assert!(!socket.has_completion(&parking));
        let step = socket.poll_read(&mut parking, waker, IoEvent::Tried(Attempt::Done(12)));
        assert!(matches!(step.action, IoAction::Ready(Ok(12))));
    }
}

#[test]
fn writes_wait_until_the_socket_is_writable() {
    let (_, waker) = counter();
    let socket = Async { raw_fd: 5, flags: 0 };
    let mut parking = parked(Kind::Epoll);
    let step = socket.poll_write(&mut parking, waker.clone(), IoEvent::Tried(Attempt::WouldBlock));
    assert!(matches!(step.action, IoAction::Park(Interest::Poller { readable: false })));
    let mut parking = parked(Kind::UringPoll);
    let step = socket.poll_write(&mut parking, waker.clone(), IoEvent::Tried(Attempt::WouldBlock));
    assert!(matches!(step.action, IoAction::Park(Interest::Ring { readable: false })));
    let mut parking = parked(Kind::Epoll);
    let step = socket.poll_next(&mut parking, waker, IoEvent::Tried(Attempt::WouldBlock));
    assert!(matches!(step.action, IoAction::Park(Interest::Poller { readable: true })));
}

#[test]
fn readiness_hands_out_errors() {
    let (_, waker) = counter();
    let mut parking = parked(Kind::Epoll);
    let socket = Async { raw_fd: 5, flags: 0 };
    let error = Error::new(ErrorKind::BrokenPipe, "gone");
    let step = socket.poll_write(&mut parking, waker, IoEvent::Tried(Attempt::Failed(error)));
    assert!(matches!(step.action, IoAction::Ready(Err(e)) if e.kind() == ErrorKind::BrokenPipe));
    assert!(!socket.has_completion(&parking));
}

#[test]
fn ready_wakes_in_the_order_of_the_reports() {
    let mut parking = parked(Kind::Epoll);
    let (first, a) = counter();
    let (second, b) = counter();
    assert_eq!(parking.modify(1, a, true), Interest::Poller { readable: true });
    assert_eq!(parking.modify(2, b, false), Interest::Poller { readable: false });
    let mut wakers = parking.ready(&vec![2, 1]).ok().unwrap();
    assert_eq!(wakers.len(), 2);
    wakers.pop().unwrap().wake();
    assert_eq!((woken(&first), woken(&second)), (1, 0));
    wakers.pop().unwrap().wake();
    assert_eq!((woken(&first), woken(&second)), (1, 1));
}

#[test]
fn readiness_without_a_waker_is_reported() {
    let mut parking = parked(Kind::UringPoll);
    parking.submit(4);
    assert!(matches!(parking.ready(&vec![3, 4]), Err(4)));
    assert!(!parking.has_completion(4));
}

#[test]
fn the_asynchronous_strategy_never_uses_the_socket_api() {
    let mut parking = parked(Kind::Async);
    let socket = Async { raw_fd: 5, flags: 0 };
    let (count, waker) = counter();
    let step = socket.poll_next(&mut parking, waker.clone(), IoEvent::Polled);
    assert!(matches!(step.action, IoAction::Submit));
    assert!(socket.has_completion(&parking));
    let step = socket.poll_next(&mut parking, waker.clone(), IoEvent::Submitted(reports(vec![])));
    assert!(matches!(step.action, IoAction::Pending));
    // A poll in between waits on.
    let step = socket.poll_next(&mut parking, waker.clone(), IoEvent::Polled);
    assert!(matches!(step.action, IoAction::Pending));
    assert_eq!(wake_all(parking.completed(reports(vec![(5, Ok(17))]))), 1);
    assert_eq!(woken(&count), 1);
    let step = socket.poll_next(&mut parking, waker.clone(), IoEvent::Polled);
    assert!(matches!(step.action, IoAction::Ready(Ok(17))));
    // The result is handed out once.
    assert!(!socket.has_completion(&parking));
    let step = socket.poll_next(&mut parking, waker, IoEvent::Polled);
    assert!(matches!(step.action, IoAction::Submit));
}

#[test]
fn the_hybrid_strategy_tries_first() {
    let mut parking = parked(Kind::Hybrid);
    let socket = Async { raw_fd: 5, flags: 0 };
    let (_, waker) = counter();
    let step = socket.poll_write(&mut parking, waker.clone(), IoEvent::Polled);
    assert!(matches!(step.action, IoAction::TryOnce));
    let step = socket.poll_write(&mut parking, waker.clone(), IoEvent::Tried(Attempt::Done(3)));
    assert!(matches!(step.action, IoAction::Ready(Ok(3))));
    let step = socket.poll_write(&mut parking, waker.clone(), IoEvent::Tried(Attempt::WouldBlock));
    assert!(matches!(step.action, IoAction::Submit));
    let step = socket.poll_write(&mut parking, waker, IoEvent::Submitted(reports(vec![(5, Ok(9))])));
    assert!(matches!(step.action, IoAction::Ready(Ok(9))));
    assert!(!socket.has_completion(&parking));
}

#[test]
fn the_hybrid_strategy_submits_after_any_failure() {
    let mut parking = parked(Kind::Hybrid);
    let socket = Async { raw_fd: 5, flags: 0 };
    let (_, waker) = counter();
    let error = Error::new(ErrorKind::Interrupted, "signal");
    let step = socket.poll_read(&mut parking, waker, IoEvent::Tried(Attempt::Failed(error)));
    assert!(matches!(step.action, IoAction::Submit));
}

#[test]
fn a_submission_can_wake_other_tasks() {
    let mut parking = parked(Kind::Async);
    let first = Async { raw_fd: 5, flags: 0 };
    let second = Async { raw_fd: 6, flags: 0 };
    let (a, wake_a) = counter();
    let (b, wake_b) = counter();
    assert!(matches!(first.poll_read(&mut parking, wake_a.clone(), IoEvent::Polled).action, IoAction::Submit));
    let step = first.poll_read(&mut parking, wake_a.clone(), IoEvent::Submitted(reports(vec![])));
    assert!(matches!(step.action, IoAction::Pending));
    assert!(matches!(second.poll_read(&mut parking, wake_b.clone(), IoEvent::Polled).action, IoAction::Submit));
    let error = Error::new(ErrorKind::ConnectionReset, "reset");
    let list = reports(vec![(99, Ok(1)), (5, Err(error)), (6, Ok(4))]);
    let step = second.poll_read(&mut parking, wake_b, IoEvent::Submitted(list));
    assert!(matches!(step.action, IoAction::Ready(Ok(4))));
    assert_eq!(wake_all(step.wake), 1);
    assert_eq!((woken(&a), woken(&b)), (1, 0));
    let step = first.poll_read(&mut parking, wake_a, IoEvent::Polled);
    assert!(matches!(step.action, IoAction::Ready(Err(e)) if e.kind() == ErrorKind::ConnectionReset));
}

#[test]
fn a_new_poll_replaces_the_waker() {
    let mut parking = parked(Kind::Async);
    let socket = Async { raw_fd: 5, flags: 0 };
    let (old, a) = counter();
    let (new, b) = counter();
    parking.submit(5);
    assert!(matches!(socket.poll_read(&mut parking, a, IoEvent::Polled).action, IoAction::Pending));
    assert!(matches!(socket.poll_read(&mut parking, b, IoEvent::Polled).action, IoAction::Pending));
    wake_all(parking.completed(reports(vec![(5, Ok(0))])));
    assert_eq!((woken(&old), woken(&new)), (0, 1));
    let (_, c) = counter();
    assert!(matches!(parking.finish(5, c), Some(Ok(0))));
    assert!(!parking.has_completion(5));
}

#[test]
fn the_strategy_decides_what_a_report_means() {
    for kind in [Kind::UringPoll, Kind::Epoll] {
        let mut parking = parked(kind);
        let (count, waker) = counter();
        let _ = parking.modify(5, waker, true);
        let error = Error::new(ErrorKind::Other, "ignored");
        assert_eq!(wake_all(parking.reported(reports(vec![(6, Ok(1)), (5, Err(error))])).ok().unwrap()), 1);
        assert_eq!(woken(&count), 1);
        assert!(!parking.has_completion(5));
        parking.submit(4);
        assert!(matches!(parking.reported(reports(vec![(4, Ok(1))])), Err(4)));
    }
    for kind in [Kind::Async, Kind::Hybrid] {
        let mut parking = parked(kind);
        let (count, waker) = counter();
        parking.submit(5);
        assert!(parking.finish(5, waker.clone()).is_none());
        assert_eq!(wake_all(parking.reported(reports(vec![(5, Ok(8))])).ok().unwrap()), 1);
        assert_eq!(woken(&count), 1);
        assert!(matches!(parking.finish(5, waker), Some(Ok(8))));
    }
}
