//! Asynchronous accepts, reads and writes under each I/O strategy.
//!
//! An [`Async`] does no I/O. A poll of it is a short conversation: it is told what happened
//! and says what to try next, until the operation is over or the task has to wait.

use crate::parking::{by_readiness, completed, finished, registration, Completion, Interest, Kind, Parking, ParkingView, Registration};
use std::collections::VecDeque;
use std::task::Waker;
use vstd::prelude::*;

verus! {

/// An operation on a socket. A listener accepts, a stream reads and writes.
#[derive(PartialEq, Eq, Structural, Debug, Clone, Copy)]
pub enum Op {
    Accept,
    Read,
    Write,
}

/// The outcome of a call of the socket API. What it counts is the number of bytes, or the
/// descriptor of an accepted connection.
pub enum Attempt {
    Done(usize),
    WouldBlock,
    Failed(std::io::Error),
}

/// What happened to an operation.
pub enum IoEvent {
    /// The task polls it.
    Polled,
    /// The socket API was called.
    Tried(Attempt),
    /// The operation was handed to the kernel. These operations have come to an end.
    Submitted(VecDeque<(u64, Result<usize, std::io::Error>)>),
}

/// What to do next for an operation.
pub enum IoAction {
    /// Call the socket API; the socket is non-blocking.
    Try,
    /// Call the socket API without blocking, just this once.
    TryOnce,
    /// Hand the operation to the kernel, and look what has come to an end.
    Submit,
    /// Ask the kernel for a report, and wait.
    Park(Interest),
    /// The operation is over.
    Ready(Result<usize, std::io::Error>),
    /// Wait.
    Pending,
}

/// What to do next, and which wakers are due.
pub struct IoStep {
    pub action: IoAction,
    pub wake: Vec<Waker>,
}

/// Nobody is woken.
pub open spec fn quietly(v: ParkingView, action: IoAction) -> (ParkingView, IoAction, Seq<Waker>) {
    (v, action, Seq::empty())
}

/// An operation that is handed to the kernel.
pub open spec fn submitting(v: ParkingView, key: u64) -> (ParkingView, IoAction, Seq<Waker>) {
    quietly(
        ParkingView {
            completion: v.completion.insert(key, Completion { waker: None, result: None }),
            ..v
        },
        IoAction::Submit,
    )
}

/// An operation that was handed to the kernel: it is over or the task waits for it.
pub open spec fn finishing(v: ParkingView, key: u64, waker: Waker, wake: Seq<Waker>) -> (
    ParkingView,
    IoAction,
    Seq<Waker>,
) {
    (
        finished(v, key, waker),
        match v.completion[key].result {
            Some(r) => IoAction::Ready(r),
            None => IoAction::Pending,
        },
        wake,
    )
}

/// What an event does to the operation `op` on the socket `key` that a task with `waker`
/// polls: the strategy decides what is tried and in which order.
pub open spec fn polled(v: ParkingView, key: u64, op: Op, waker: Waker, event: IoEvent) -> (
    ParkingView,
    IoAction,
    Seq<Waker>,
) {
    let kind = v.kind->0;
    match event {
        IoEvent::Polled => if by_readiness(kind) {
            quietly(v, IoAction::Try)
        } else if v.completion.dom().contains(key) {
            finishing(v, key, waker, Seq::empty())
        } else if kind == Kind::Hybrid {
            quietly(v, IoAction::TryOnce)
        } else {
            submitting(v, key)
        },
        IoEvent::Tried(Attempt::Done(n)) => quietly(v, IoAction::Ready(Ok(n))),
        IoEvent::Tried(attempt) => if !by_readiness(kind) {
            submitting(v, key)
        } else {
            match attempt {
                Attempt::Failed(e) => quietly(v, IoAction::Ready(Err(e))),
                _ => quietly(
                    ParkingView {
                        completion: v.completion.insert(
                            key,
                            Completion { waker: Some(waker), result: None },
                        ),
                        ..v
                    },
                    IoAction::Park(
                        if kind == Kind::Epoll {
                            Interest::Poller { readable: op != Op::Write }
                        } else {
                            Interest::Ring { readable: op != Op::Write }
                        },
                    ),
                ),
            }
        },
        IoEvent::Submitted(reports) => {
            let (after, wake) = completed(v.completion, reports@);
            finishing(ParkingView { completion: after, ..v }, key, waker, wake)
        },
    }
}

/// A socket under the strategy of its thread.
pub struct Async {
    /// The descriptor of the socket.
    pub raw_fd: u64,
    /// The status flags that the socket came with.
    pub flags: i32,
}

impl Async {
    /// Takes in a socket, and says how it is set up.
    pub fn new(parking: &Parking, raw_fd: u64, flags: i32) -> (r: (Async, Registration))
        requires
            parking@.kind is Some,
        ensures
            r.0 == (Async { raw_fd, flags }),
            r.1 == registration(parking@.kind->0),
    {
        (Async { raw_fd, flags }, parking.add())
    }

    /// The status flags that make the socket non-blocking, or blocking. `nonblock` is the
    /// bit that stands for it.
    pub fn set_nonblocking(&self, enable: bool, nonblock: i32) -> (flags: i32)
        ensures
            flags == if enable {
                self.flags | nonblock
            } else {
                self.flags & !nonblock
            },
    {
        if enable {
            self.flags | nonblock
        } else {
            self.flags & !nonblock
        }
    }

    /// Whether an operation on the socket is under way.
    pub fn has_completion(&self, parking: &Parking) -> (found: bool)
        ensures
            found == parking@.completion.dom().contains(self.raw_fd),
    {
        parking.has_completion(self.raw_fd)
    }

    /// Records the operation that is handed to the kernel.
    fn poll_submit(&self, parking: &mut Parking) -> (step: IoStep)
        ensures
            submitting(old(parking)@, self.raw_fd) == (final(parking)@, step.action, step.wake@),
    {
        parking.submit(self.raw_fd);
        IoStep { action: IoAction::Submit, wake: Vec::new() }
    }

    /// Looks after the operation that was handed to the kernel.
    fn poll_finish(&self, parking: &mut Parking, waker: Waker, wake: Vec<Waker>) -> (step: IoStep)
        requires
            old(parking)@.completion.dom().contains(self.raw_fd),
        ensures
            finishing(old(parking)@, self.raw_fd, waker, wake@) == (
                final(parking)@,
                step.action,
                step.wake@,
            ),
    {
        match parking.finish(self.raw_fd, waker) {
            Some(r) => IoStep { action: IoAction::Ready(r), wake },
            None => IoStep { action: IoAction::Pending, wake },
        }
    }

    /// Waits until the socket is ready, after a call that would have blocked.
    fn poll_sync(&self, op: Op, parking: &mut Parking, waker: Waker, attempt: Attempt) -> (step:
        IoStep)
        requires
            old(parking)@.kind is Some,
            by_readiness(old(parking)@.kind->0),
        ensures
            polled(old(parking)@, self.raw_fd, op, waker, IoEvent::Tried(attempt)) == (
                final(parking)@,
                step.action,
                step.wake@,
            ),
    {
        match attempt {
            Attempt::Done(n) => IoStep { action: IoAction::Ready(Ok(n)), wake: Vec::new() },
            Attempt::Failed(e) => IoStep { action: IoAction::Ready(Err(e)), wake: Vec::new() },
            Attempt::WouldBlock => {
                let is_readable: bool = match op {
                    Op::Write => false,
                    _ => true,
                };
                let interest = parking.modify(self.raw_fd, waker, is_readable);
                IoStep { action: IoAction::Park(interest), wake: Vec::new() }
            },
        }
    }

    /// Goes on with an operation.
    fn poll(&self, op: Op, parking: &mut Parking, waker: Waker, event: IoEvent) -> (step: IoStep)
        requires
            old(parking)@.kind is Some,
            event is Submitted ==> old(parking)@.completion.dom().contains(self.raw_fd),
        ensures
            polled(old(parking)@, self.raw_fd, op, waker, event) == (
                final(parking)@,
                step.action,
                step.wake@,
            ),
    {
        let kind: Kind = match parking.kind() {
            Some(kind) => kind,
            None => Kind::Epoll,
        };
        match event {
            IoEvent::Polled => if kind.is_by_readiness() {
                IoStep { action: IoAction::Try, wake: Vec::new() }
            } else if self.has_completion(parking) {
                self.poll_finish(parking, waker, Vec::new())
            } else if kind == Kind::Hybrid {
                IoStep { action: IoAction::TryOnce, wake: Vec::new() }
            } else {
                self.poll_submit(parking)
            },
            IoEvent::Tried(attempt) => if kind.is_by_readiness() {
                self.poll_sync(op, parking, waker, attempt)
            } else {
                match attempt {
                    Attempt::Done(n) => IoStep {
                        action: IoAction::Ready(Ok(n)),
                        wake: Vec::new(),
                    },
                    _ => self.poll_submit(parking),
                }
            },
            IoEvent::Submitted(reports) => {
                proof {
                    lemma_completed_keeps_sockets(parking@.completion, reports@);
                }
                let wake = parking.completed(reports);
                self.poll_finish(parking, waker, wake)
            },
        }
    }

    /// Accepts a connection. What an operation that is over counts is its descriptor.
    pub fn poll_next(&self, parking: &mut Parking, waker: Waker, event: IoEvent) -> (step: IoStep)
        requires
            old(parking)@.kind is Some,
            event is Submitted ==> old(parking)@.completion.dom().contains(self.raw_fd),
        ensures
            polled(old(parking)@, self.raw_fd, Op::Accept, waker, event) == (
                final(parking)@,
                step.action,
                step.wake@,
            ),
    {
        self.poll(Op::Accept, parking, waker, event)
    }

    /// Reads. What an operation that is over counts is the bytes that were read.
    pub fn poll_read(&self, parking: &mut Parking, waker: Waker, event: IoEvent) -> (step: IoStep)
        requires
            old(parking)@.kind is Some,
            event is Submitted ==> old(parking)@.completion.dom().contains(self.raw_fd),
        ensures
            polled(old(parking)@, self.raw_fd, Op::Read, waker, event) == (
                final(parking)@,
                step.action,
                step.wake@,
            ),
    {
        self.poll(Op::Read, parking, waker, event)
    }

    /// Writes. What an operation that is over counts is the bytes that were written.
    pub fn poll_write(&self, parking: &mut Parking, waker: Waker, event: IoEvent) -> (step: IoStep)
        requires
            old(parking)@.kind is Some,
            event is Submitted ==> old(parking)@.completion.dom().contains(self.raw_fd),
        ensures
            polled(old(parking)@, self.raw_fd, Op::Write, waker, event) == (
                final(parking)@,
                step.action,
                step.wake@,
            ),
    {
        self.poll(Op::Write, parking, waker, event)
    }
}

/// Results are recorded for operations that are under way; none comes or goes.
pub proof fn lemma_completed_keeps_sockets(
    waiting: Map<u64, Completion>,
    reports: Seq<(u64, Result<usize, std::io::Error>)>,
)
    ensures
        completed(waiting, reports).0.dom() == waiting.dom(),
    decreases reports.len(),
{
    if reports.len() > 0 {
        let (key, result) = reports[0];
        if waiting.dom().contains(key) {
            let next = waiting.insert(key, Completion { waker: None, result: Some(result) });
            assert(next.dom() =~= waiting.dom());
            lemma_completed_keeps_sockets(next, reports.drop_first());
        } else {
            lemma_completed_keeps_sockets(waiting, reports.drop_first());
        }
    }
}

} // verus!
