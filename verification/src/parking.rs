//! Who waits for what: the sockets of one thread and the tasks that wait for them.
//!
//! There are four I/O strategies. Two of them wait until a socket is ready and then use the
//! socket API; the other two hand the operation to the kernel and wait until it is complete.

use crate::table::{contains, get_mut, insert, new_table, remove};
use rustc_hash::FxHashMap;
use std::collections::VecDeque;
use std::task::Waker;
use vstd::prelude::*;

verus! {

/// The waker of std, which is only carried.
#[verifier::external_type_specification]
#[verifier::external_body]
pub struct ExWaker(std::task::Waker);

/// An I/O strategy.
#[derive(PartialEq, Eq, Structural, Debug, Clone, Copy)]
pub enum Kind {
    /// Non-blocking socket API with epoll.
    Epoll,
    /// Non-blocking socket API with io_uring in place of epoll.
    UringPoll,
    /// io_uring alone: accepts, receives and sends are always asynchronous.
    Async,
    /// Non-blocking socket API first; where that fails, io_uring.
    Hybrid,
}

/// Whether a strategy waits for sockets to be ready.
pub open spec fn by_readiness(kind: Kind) -> bool {
    kind == Kind::Epoll || kind == Kind::UringPoll
}

impl Kind {
    /// Whether the strategy waits for sockets to be ready.
    pub fn is_by_readiness(self) -> (b: bool)
        ensures
            b == by_readiness(self),
    {
        match self {
            Kind::Epoll | Kind::UringPoll => true,
            Kind::Async | Kind::Hybrid => false,
        }
    }
}

/// What is known of an operation that a task waits for.
#[derive(Debug)]
pub struct Completion {
    pub waker: Option<Waker>,
    pub result: Option<Result<usize, std::io::Error>>,
}

impl Completion {
    /// An operation without a result.
    pub fn new(waker: Option<Waker>) -> (c: Completion)
        ensures
            c == (Completion { waker, result: None }),
    {
        Completion { waker, result: None }
    }

    /// Records the result and hands out the waker, which is to be woken.
    pub fn complete(&mut self, result: Result<usize, std::io::Error>) -> (waker: Option<Waker>)
        ensures
            waker == old(self).waker,
            *final(self) == (Completion { waker: None, result: Some(result) }),
    {
        self.result = Some(result);
        self.waker.take()
    }
}

/// How a socket is set up.
#[derive(PartialEq, Eq, Structural, Debug, Clone, Copy)]
pub struct Registration {
    /// Whether the socket is made non-blocking.
    pub nonblocking: bool,
    /// Whether the socket is added to the poller.
    pub polled: bool,
}

/// What the kernel is asked to report of a socket.
#[derive(PartialEq, Eq, Structural, Debug, Clone, Copy)]
pub enum Interest {
    /// The poller reports when the socket is readable or else writable.
    Poller { readable: bool },
    /// The ring reports when the socket is readable or else writable.
    Ring { readable: bool },
}

/// How to wait for reports.
#[derive(PartialEq, Eq, Structural, Debug, Clone, Copy)]
pub enum WaitPlan {
    /// Wait for the poller.
    Poller,
    /// Wait for the ring, and take all that it has.
    Ring,
    /// Take all that the ring has, without waiting.
    RingNow,
}

/// The waiting operations, by socket.
pub type Waiting = Map<u64, Completion>;

/// The mathematical value of a [`Parking`].
#[verifier::ext_equal]
pub struct ParkingView {
    pub kind: Option<Kind>,
    pub completion: Waiting,
}

/// The sockets of one thread and the operations that wait for them.
pub struct Parking {
    kind: Option<Kind>,
    completion: FxHashMap<u64, Completion>,
}

impl View for Parking {
    type V = ParkingView;

    closed spec fn view(&self) -> ParkingView {
        ParkingView { kind: self.kind, completion: self.completion@ }
    }
}

/// How a socket is set up under a strategy.
pub open spec fn registration(kind: Kind) -> Registration {
    Registration { nonblocking: by_readiness(kind), polled: kind == Kind::Epoll }
}

/// What sockets that became ready do, in the order of the reports: each operation that waits
/// for one is taken out and its waker is due. A report without such an operation is passed
/// over. An operation without a waker ends the work; its socket comes back.
pub open spec fn ready(waiting: Waiting, keys: Seq<u64>) -> (Waiting, Seq<Waker>, Option<u64>)
    decreases keys.len(),
{
    if keys.len() == 0 {
        (waiting, Seq::empty(), None)
    } else {
        let key = keys[0];
        if !waiting.dom().contains(key) {
            ready(waiting, keys.drop_first())
        } else {
            match waiting[key].waker {
                None => (waiting.remove(key), Seq::empty(), Some(key)),
                Some(waker) => {
                    let (after, wakers, lost) = ready(waiting.remove(key), keys.drop_first());
                    (after, seq![waker] + wakers, lost)
                },
            }
        }
    }
}

/// What operations that came to an end do, in the order of the reports: each records its
/// result, and a waker that it has is due. A report without such an operation is passed over.
pub open spec fn completed(
    waiting: Waiting,
    reports: Seq<(u64, Result<usize, std::io::Error>)>,
) -> (Waiting, Seq<Waker>)
    decreases reports.len(),
{
    if reports.len() == 0 {
        (waiting, Seq::empty())
    } else {
        let (key, result) = reports[0];
        if !waiting.dom().contains(key) {
            completed(waiting, reports.drop_first())
        } else {
            let (after, wakers) = completed(
                waiting.insert(key, Completion { waker: None, result: Some(result) }),
                reports.drop_first(),
            );
            match waiting[key].waker {
                None => (after, wakers),
                Some(waker) => (after, seq![waker] + wakers),
            }
        }
    }
}

/// The sockets of the reports.
pub open spec fn keys_of(reports: Seq<(u64, Result<usize, std::io::Error>)>) -> Seq<u64> {
    reports.map_values(|report: (u64, Result<usize, std::io::Error>)| report.0)
}

/// What is left of an operation that a task has looked after: nothing if it had a result,
/// and else it holds the waker of the task.
pub open spec fn finished(v: ParkingView, key: u64, waker: Waker) -> ParkingView {
    ParkingView {
        completion: if v.completion[key].result is Some {
            v.completion.remove(key)
        } else {
            v.completion.insert(key, Completion { waker: Some(waker), result: None })
        },
        ..v
    }
}

/// Takes the sockets from the reports.
fn report_keys(reports: VecDeque<(u64, Result<usize, std::io::Error>)>) -> (keys: Vec<u64>)
    ensures
        keys@ == keys_of(reports@),
{
    let mut reports = reports;
    let ghost all = reports@;
    let mut keys: Vec<u64> = Vec::new();
    assert(keys@ + keys_of(reports@) =~= keys_of(all));
    loop
        invariant
            keys@ + keys_of(reports@) == keys_of(all),
        ensures
            reports@.len() == 0,
        decreases reports@.len(),
    {
        let ghost left = reports@;
        let ghost before = keys@;
        match reports.pop_front() {
            None => {
                break ;
            },
            Some((key, _)) => {
                keys.push(key);
                assert(keys@ + keys_of(reports@) =~= before + keys_of(left));
            },
        }
    }
    assert(keys@ =~= keys_of(all));
    keys
}

impl Parking {
    /// No strategy yet, and nobody waits.
    pub fn new() -> (parking: Parking)
        ensures
            parking@ == (ParkingView { kind: None, completion: Map::empty() }),
    {
        let parking = Parking { kind: None, completion: new_table() };
        assert(parking@.completion =~= Map::empty());
        parking
    }

    /// The strategy.
    pub fn kind(&self) -> (kind: Option<Kind>)
        ensures
            kind == self@.kind,
    {
        self.kind
    }

    /// Sets the strategy.
    pub fn set_kind(&mut self, kind: Kind)
        ensures
            final(self)@ == (ParkingView { kind: Some(kind), ..old(self)@ }),
    {
        self.kind = Some(kind);
    }

    /// How a new socket is set up.
    pub fn add(&self) -> (how: Registration)
        requires
            self@.kind is Some,
        ensures
            how == registration(self@.kind->0),
    {
        match self.kind {
            Some(Kind::Epoll) => Registration { nonblocking: true, polled: true },
            Some(Kind::UringPoll) => Registration { nonblocking: true, polled: false },
            _ => Registration { nonblocking: false, polled: false },
        }
    }

    /// Whether a socket that goes away is to be taken from the poller.
    pub fn delete(&self) -> (polled: bool)
        requires
            self@.kind is Some,
        ensures
            polled == registration(self@.kind->0).polled,
    {
        match self.kind {
            Some(Kind::Epoll) => true,
            _ => false,
        }
    }

    /// Makes a task wait until a socket is ready, and says what to ask for.
    pub fn modify(&mut self, key: u64, waker: Waker, is_readable: bool) -> (interest: Interest)
        requires
            old(self)@.kind is Some,
            by_readiness(old(self)@.kind->0),
        ensures
            final(self)@ == (ParkingView {
                completion: old(self)@.completion.insert(
                    key,
                    Completion { waker: Some(waker), result: None },
                ),
                ..old(self)@
            }),
            interest == if old(self)@.kind == Some(Kind::Epoll) {
                Interest::Poller { readable: is_readable }
            } else {
                Interest::Ring { readable: is_readable }
            },
    {
        insert(&mut self.completion, key, Completion::new(Some(waker)));
        match self.kind {
            Some(Kind::Epoll) => Interest::Poller { readable: is_readable },
            _ => Interest::Ring { readable: is_readable },
        }
    }

    /// Whether an operation on a socket is under way.
    pub fn has_completion(&self, key: u64) -> (found: bool)
        ensures
            found == self@.completion.dom().contains(key),
    {
        contains(&self.completion, key)
    }

    /// Records an operation that is handed to the kernel. Nobody waits for it yet.
    pub fn submit(&mut self, key: u64)
        ensures
            final(self)@ == (ParkingView {
                completion: old(self)@.completion.insert(
                    key,
                    Completion { waker: None, result: None },
                ),
                ..old(self)@
            }),
    {
        insert(&mut self.completion, key, Completion::new(None));
    }

    /// How to wait for reports. Operations that are handed to the kernel may be looked after
    /// without sleeping.
    pub fn wait(&self, sleepable: bool) -> (plan: WaitPlan)
        requires
            self@.kind is Some,
        ensures
            plan == match self@.kind->0 {
                Kind::Epoll => WaitPlan::Poller,
                Kind::UringPoll => WaitPlan::Ring,
                Kind::Async | Kind::Hybrid => if sleepable {
                    WaitPlan::Ring
                } else {
                    WaitPlan::RingNow
                },
            },
    {
        match self.kind {
            Some(Kind::Epoll) => WaitPlan::Poller,
            Some(Kind::UringPoll) => WaitPlan::Ring,
            _ => if sleepable {
                WaitPlan::Ring
            } else {
                WaitPlan::RingNow
            },
        }
    }

    /// Takes in the sockets that became ready, and hands out the wakers that are due. An
    /// operation without a waker is an error; its socket is handed out then.
    pub fn ready(&mut self, keys: &Vec<u64>) -> (r: Result<Vec<Waker>, u64>)
        ensures
            final(self)@.kind == old(self)@.kind,
            ({
                let (after, wakers, lost) = ready(old(self)@.completion, keys@);
                final(self)@.completion == after && match r {
                    Ok(w) => lost is None && w@ == wakers,
                    Err(key) => lost == Some(key),
                }
            }),
    {
        let ghost start = self@;
        let mut wakers: Vec<Waker> = Vec::new();
        let len: usize = keys.len();
        let mut i: usize = 0;
        assert(keys@.skip(0) =~= keys@);
        while i < len
            invariant
                i <= len,
                len == keys@.len(),
                start == old(self)@,
                self@.kind == start.kind,
                ready(start.completion, keys@) == ({
                    let (after, more, lost) = ready(self@.completion, keys@.skip(i as int));
                    (after, wakers@ + more, lost)
                }),
            decreases len - i,
        {
            let key: u64 = keys[i];
            let ghost here = self@.completion;
            let ghost due = wakers@;
            assert(keys@.skip(i as int).drop_first() =~= keys@.skip(i + 1));
            match remove(&mut self.completion, key) {
                None => {
                    assert(here.remove(key) =~= here);
                },
                Some(c) => match c.waker {
                    None => {
                        return Err(key);
                    },
                    Some(waker) => {
                        wakers.push(waker);
                        proof {
                            let more = ready(here.remove(key), keys@.skip(i + 1)).1;
                            assert(due + (seq![waker] + more) =~= wakers@ + more);
                        }
                    },
                },
            }
            i = i + 1;
        }
        assert(wakers@ + Seq::<Waker>::empty() =~= wakers@);
        Ok(wakers)
    }

    /// Takes in the operations that came to an end, and hands out the wakers that are due.
    pub fn completed(&mut self, reports: VecDeque<(u64, Result<usize, std::io::Error>)>) -> (w: Vec<
        Waker,
    >)
        ensures
            final(self)@.kind == old(self)@.kind,
            completed(old(self)@.completion, reports@) == (final(self)@.completion, w@),
    {
        let ghost start = self@;
        let mut reports = reports;
        let ghost all = reports@;
        let mut wakers: Vec<Waker> = Vec::new();
        loop
            invariant
                start == old(self)@,
                self@.kind == start.kind,
                completed(start.completion, all) == ({
                    let (after, more) = completed(self@.completion, reports@);
                    (after, wakers@ + more)
                }),
            ensures
                reports@.len() == 0,
            decreases reports@.len(),
        {
            let ghost here = self@.completion;
            let ghost due = wakers@;
            let ghost left = reports@;
            match reports.pop_front() {
                None => {
                    break ;
                },
                Some((key, result)) => {
                    assert(reports@ =~= left.drop_first());
                    match get_mut(&mut self.completion, key) {
                        None => {},
                        Some(c) => {
                            let waker = c.complete(result);
                            proof {
                                let after = here.insert(
                                    key,
                                    Completion { waker: None, result: Some(result) },
                                );
                                let more = completed(after, reports@).1;
                                if waker is Some {
                                    assert(due + (seq![waker->0] + more) =~= due.push(waker->0)
                                        + more);
                                }
                            }
                            match waker {
                                None => {},
                                Some(w) => {
                                    wakers.push(w);
                                },
                            }
                        },
                    }
                },
            }
        }
        assert(wakers@ + Seq::<Waker>::empty() =~= wakers@);
        wakers
    }

    /// Takes in what the ring reports, and hands out the wakers that are due. With readiness a
    /// report says that a socket is ready, else that an operation came to an end.
    pub fn reported(&mut self, reports: VecDeque<(u64, Result<usize, std::io::Error>)>) -> (r:
        Result<Vec<Waker>, u64>)
        requires
            old(self)@.kind is Some,
        ensures
            final(self)@.kind == old(self)@.kind,
            if by_readiness(old(self)@.kind->0) {
                let (after, wakers, lost) = ready(old(self)@.completion, keys_of(reports@));
                final(self)@.completion == after && match r {
                    Ok(w) => lost is None && w@ == wakers,
                    Err(key) => lost == Some(key),
                }
            } else {
                r is Ok && completed(old(self)@.completion, reports@) == (
                    final(self)@.completion,
                    r->Ok_0@,
                )
            },
    {
        let by_readiness: bool = match self.kind {
            Some(kind) => kind.is_by_readiness(),
            None => false,
        };
        if by_readiness {
            let keys = report_keys(reports);
            self.ready(&keys)
        } else {
            Ok(self.completed(reports))
        }
    }

    /// Looks after an operation that was handed to the kernel: hands out its result, once,
    /// or else makes the task wait for it.
    pub fn finish(&mut self, key: u64, waker: Waker) -> (r: Option<Result<usize, std::io::Error>>)
        requires
            old(self)@.completion.dom().contains(key),
        ensures
            final(self)@ == finished(old(self)@, key, waker),
            r == old(self)@.completion[key].result,
    {
        let ghost before = self@.completion;
        let r = match get_mut(&mut self.completion, key) {
            None => None,
            Some(c) => {
                if c.result.is_none() {
                    c.waker = Some(waker);
                    None
                } else {
                    c.result.take()
                }
            },
        };
        if r.is_some() {
            let _ = remove(&mut self.completion, key);
            assert(self@.completion =~= before.remove(key));
        }
        r
    }
}

} // verus!
