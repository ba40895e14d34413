//! What holds of every operation that a task waits for.

use crate::async_io::{lemma_completed_keeps_sockets, polled, Attempt, IoAction, IoEvent, Op};
use crate::parking::{by_readiness, completed, keys_of, ready, registration, Completion, Interest, Kind, ParkingView};
use std::collections::VecDeque;
use std::task::Waker;
use vstd::prelude::*;

verus! {

/// A task that has to wait is on record: its waker stands with the operation, which has no
/// result yet.
pub proof fn law_who_waits_is_on_record(
    v: ParkingView,
    key: u64,
    op: Op,
    waker: Waker,
    event: IoEvent,
)
    requires
        v.kind is Some,
    ensures
        ({
            let (after, action, _) = polled(v, key, op, waker, event);
            action is Pending || action is Park ==> after.completion.dom().contains(key)
                && after.completion[key] == (Completion { waker: Some(waker), result: None })
        }),
{
}

/// A result is handed out once: with it the operation is over, and the next poll starts
/// another one.
pub proof fn law_result_is_handed_out_once(
    v: ParkingView,
    key: u64,
    op: Op,
    waker: Waker,
    r: Result<usize, std::io::Error>,
)
    requires
        v.kind is Some,
        !by_readiness(v.kind->0),
        v.completion.dom().contains(key),
        v.completion[key].result == Some(r),
    ensures
        ({
            let (after, action, wake) = polled(v, key, op, waker, IoEvent::Polled);
            &&& action == IoAction::Ready(r)
            &&& wake == Seq::<Waker>::empty()
            &&& after.completion == v.completion.remove(key)
            &&& polled(after, key, op, waker, IoEvent::Polled).1 == if v.kind == Some(
                Kind::Hybrid,
            ) {
                IoAction::TryOnce
            } else {
                IoAction::Submit
            }
        }),
{
}

/// Each strategy keeps to its own ways. With readiness the socket API is used and nothing is
/// handed to the kernel. The asynchronous strategy hands everything to the kernel. The
/// hybrid one tries the socket API first and hands to the kernel what fails.
pub proof fn law_strategies(v: ParkingView, key: u64, op: Op, waker: Waker, event: IoEvent)
    requires
        v.kind is Some,
    ensures
        ({
            let action = polled(v, key, op, waker, event).1;
            match v.kind->0 {
                Kind::Epoll | Kind::UringPoll => {
                    &&& event is Polled ==> action is Try
                    &&& !(event is Submitted) ==> !(action is Submit || action is TryOnce
                        || action is Pending)
                },
                Kind::Async => {
                    &&& !(action is Try || action is TryOnce || action is Park)
                    &&& event is Polled && !v.completion.dom().contains(key) ==> action is Submit
                },
                Kind::Hybrid => {
                    &&& !(action is Try || action is Park)
                    &&& event is Polled && !v.completion.dom().contains(key) ==> action is TryOnce
                    &&& event matches IoEvent::Tried(attempt) ==> if attempt is Done {
                        action is Ready
                    } else {
                        action is Submit
                    }
                },
            }
        }),
{
}

/// A result finds the task that waits for it: its report makes the waker due, and the next
/// poll of the task ends with the result.
pub proof fn law_result_finds_the_task(
    v: ParkingView,
    key: u64,
    op: Op,
    waker: Waker,
    r: Result<usize, std::io::Error>,
)
    requires
        v.kind is Some,
        !by_readiness(v.kind->0),
        v.completion.dom().contains(key),
        v.completion[key] == (Completion { waker: Some(waker), result: None }),
    ensures
        ({
            let (after, wake) = completed(v.completion, seq![(key, r)]);
            &&& wake == seq![waker]
            &&& polled(
                ParkingView { completion: after, ..v },
                key,
                op,
                waker,
                IoEvent::Polled,
            ).1 == IoAction::Ready(r)
        }),
{
    let reports = seq![(key, r)];
    let next = v.completion.insert(key, Completion { waker: None, result: Some(r) });
    assert(reports.drop_first() =~= Seq::empty());
    assert(completed(next, Seq::empty()) == (next, Seq::<Waker>::empty()));
    assert(completed(v.completion, reports).1 =~= seq![waker]);
}

/// An operation that is not reported keeps its record.
pub proof fn law_reports_are_for_their_sockets(
    waiting: Map<u64, Completion>,
    reports: Seq<(u64, Result<usize, std::io::Error>)>,
    other: u64,
)
    requires
        waiting.dom().contains(other),
        forall|i: int| 0 <= i < reports.len() ==> (#[trigger] reports[i]).0 != other,
    ensures
        completed(waiting, reports).0.dom() == waiting.dom(),
        completed(waiting, reports).0[other] == waiting[other],
    decreases reports.len(),
{
    lemma_completed_keeps_sockets(waiting, reports);
    if reports.len() > 0 {
        let (key, result) = reports[0];
        assert forall|i: int| 0 <= i < reports.drop_first().len() implies (
        #[trigger] reports.drop_first()[i]).0 != other by {
            assert(reports.drop_first()[i] == reports[i + 1]);
        }
        if waiting.dom().contains(key) {
            let next = waiting.insert(key, Completion { waker: None, result: Some(result) });
            law_reports_are_for_their_sockets(next, reports.drop_first(), other);
        } else {
            law_reports_are_for_their_sockets(waiting, reports.drop_first(), other);
        }
    }
}

/// A poll of one socket leaves the operations on other sockets alone, until the kernel
/// reports on them.
pub proof fn law_sockets_are_independent(
    v: ParkingView,
    key: u64,
    op: Op,
    waker: Waker,
    event: IoEvent,
    other: u64,
)
    requires
        v.kind is Some,
        other != key,
        !(event is Submitted),
    ensures
        ({
            let after = polled(v, key, op, waker, event).0;
            &&& after.kind == v.kind
            &&& after.completion.dom().contains(other) == v.completion.dom().contains(other)
            &&& v.completion.dom().contains(other) ==> after.completion[other]
                == v.completion[other]
        }),
{
}

/// Whether every operation waits: it has a waker and no result.
pub open spec fn all_wait(waiting: Map<u64, Completion>) -> bool {
    forall|key: u64| #[trigger]
        waiting.dom().contains(key) ==> waiting[key].waker is Some && waiting[key].result is None
}

/// With readiness every operation on record waits: polls keep it that way.
pub proof fn law_readiness_only_waits(
    v: ParkingView,
    key: u64,
    op: Op,
    waker: Waker,
    event: IoEvent,
)
    requires
        v.kind is Some,
        by_readiness(v.kind->0),
        !(event is Submitted),
        all_wait(v.completion),
    ensures
        all_wait(polled(v, key, op, waker, event).0.completion),
{
}

/// Readiness wakes whoever waits, once. No reported operation is without a waker; exactly the
/// reported operations are taken out, the others keep their record; each that is taken out
/// makes its own waker due, and there is one waker for each.
pub proof fn law_ready_wakes_once(waiting: Map<u64, Completion>, keys: Seq<u64>)
    requires
        all_wait(waiting),
        waiting.dom().finite(),
    ensures
        ({
            let (after, wakers, lost) = ready(waiting, keys);
            &&& lost is None
            &&& all_wait(after)
            &&& after == waiting.remove_keys(keys.to_set())
            &&& wakers.len() + after.dom().len() == waiting.dom().len()
            &&& forall|i: int|
                0 <= i < keys.len() && waiting.dom().contains(#[trigger] keys[i])
                    ==> wakers.contains(waiting[keys[i]].waker->0)
        }),
    decreases keys.len(),
{
    let (after, wakers, lost) = ready(waiting, keys);
    if keys.len() == 0 {
        assert(waiting.remove_keys(keys.to_set()) =~= waiting);
    } else {
        let key = keys[0];
        let rest = keys.drop_first();
        let next = waiting.remove(key);
        assert forall|k: u64| keys.to_set().contains(k) == (k == key || rest.to_set().contains(
            k,
        )) by {
            if keys.contains(k) {
                let j = choose|j: int| 0 <= j < keys.len() && keys[j] == k;
                if j > 0 {
                    assert(rest[j - 1] == k);
                }
            }
            if rest.contains(k) {
                let j = choose|j: int| 0 <= j < rest.len() && rest[j] == k;
                assert(keys[j + 1] == k);
            }
            assert(keys[0] == key);
        }
        assert(next.remove_keys(rest.to_set()) =~= waiting.remove_keys(keys.to_set()));
        if !waiting.dom().contains(key) {
            assert(next =~= waiting);
        }
        assert(all_wait(next));
        law_ready_wakes_once(next, rest);
        assert forall|i: int|
            0 <= i < keys.len() && waiting.dom().contains(#[trigger] keys[i]) implies wakers.contains(
            waiting[keys[i]].waker->0,
        ) by {
            if keys[i] == key {
                assert(wakers[0] == waiting[key].waker->0);
            } else {
                assert(keys[i] == rest[i - 1]);
                let w = waiting[keys[i]].waker->0;
                let more = ready(next, rest).1;
                assert(next.dom().contains(rest[i - 1]));
                assert(more.contains(w));
                let j = choose|j: int| 0 <= j < more.len() && more[j] == w;
                if waiting.dom().contains(key) {
                    assert(wakers[j + 1] == w);
                }
            }
        }
    }
}

/// A socket is non-blocking with readiness and blocking else, and only epoll polls it.
pub proof fn law_sockets_by_strategy(kind: Kind)
    ensures
        registration(kind).nonblocking <==> kind == Kind::Epoll || kind == Kind::UringPoll,
        registration(kind).polled <==> kind == Kind::Epoll,
{
}

/// The sockets of some reports, one for each.
pub proof fn law_keys_of_reports(reports: Seq<(u64, Result<usize, std::io::Error>)>)
    ensures
        keys_of(reports).len() == reports.len(),
        forall|i: int| 0 <= i < reports.len() ==> (#[trigger] keys_of(reports)[i]) == reports[i].0,
{
}

/// One report: the operation on its socket, if one is under way, records the result, gives up
/// its waker, and makes it due. All other operations stay as they are.
pub proof fn law_one_report(
    waiting: Map<u64, Completion>,
    key: u64,
    r: Result<usize, std::io::Error>,
)
    ensures
        ({
            let (after, wake) = completed(waiting, seq![(key, r)]);
            &&& !waiting.dom().contains(key) ==> after == waiting && wake.len() == 0
            &&& waiting.dom().contains(key) ==> {
                &&& after.dom() == waiting.dom()
                &&& after[key].waker is None
                &&& after[key].result == Some(r)
                &&& forall|other: u64| #[trigger]
                    waiting.dom().contains(other) && other != key ==> after[other]
                        == waiting[other]
                &&& match waiting[key].waker {
                    None => wake.len() == 0,
                    Some(w) => wake == seq![w],
                }
            }
        }),
{
    let reports = seq![(key, r)];
    let next = waiting.insert(key, Completion { waker: None, result: Some(r) });
    assert(reports.drop_first() =~= Seq::empty());
    assert(completed(next, Seq::empty()) == (next, Seq::<Waker>::empty()));
    assert(completed(waiting, Seq::empty()) == (waiting, Seq::<Waker>::empty()));
    if waiting.dom().contains(key) {
        assert(next.dom() =~= waiting.dom());
        if let Some(w) = waiting[key].waker {
            assert(completed(waiting, reports).1 =~= seq![w]);
        }
    }
}

/// Reports can be taken in piece by piece: the later ones find what the earlier ones left, and
/// the wakers that are due add up in order.
pub proof fn law_reports_in_pieces(
    waiting: Map<u64, Completion>,
    a: Seq<(u64, Result<usize, std::io::Error>)>,
    b: Seq<(u64, Result<usize, std::io::Error>)>,
)
    ensures
        ({
            let (first, due) = completed(waiting, a);
            let (second, more) = completed(first, b);
            completed(waiting, a + b) == (second, due + more)
        }),
        completed(waiting, Seq::empty()) == (waiting, Seq::<Waker>::empty()),
    decreases a.len(),
{
    if a.len() == 0 {
        assert(a + b =~= b);
        assert(Seq::<Waker>::empty() + completed(waiting, b).1 =~= completed(waiting, b).1);
    } else {
        let (key, result) = a[0];
        assert((a + b).drop_first() =~= a.drop_first() + b);
        if waiting.dom().contains(key) {
            let next = waiting.insert(key, Completion { waker: None, result: Some(result) });
            law_reports_in_pieces(next, a.drop_first(), b);
            let (first, due) = completed(next, a.drop_first());
            let more = completed(first, b).1;
            if let Some(w) = waiting[key].waker {
                assert(seq![w] + (due + more) =~= (seq![w] + due) + more);
            }
        } else {
            law_reports_in_pieces(waiting, a.drop_first(), b);
        }
    }
}

/// Whether a socket is among the reports.
pub open spec fn is_reported(
    reports: Seq<(u64, Result<usize, std::io::Error>)>,
    key: u64,
) -> bool {
    exists|i: int| 0 <= i < reports.len() && (#[trigger] reports[i]).0 == key
}

proof fn lemma_waker_after(
    waiting: Map<u64, Completion>,
    reports: Seq<(u64, Result<usize, std::io::Error>)>,
    key: u64,
)
    requires
        waiting.dom().contains(key),
    ensures
        completed(waiting, reports).0.dom() == waiting.dom(),
        completed(waiting, reports).0[key].waker == if is_reported(reports, key) {
            None
        } else {
            waiting[key].waker
        },
    decreases reports.len(),
{
    lemma_completed_keeps_sockets(waiting, reports);
    if reports.len() > 0 {
        let rest = reports.drop_first();
        let (first, result) = reports[0];
        assert(is_reported(reports, key) == (first == key || is_reported(rest, key))) by {
            if is_reported(reports, key) {
                let i = choose|i: int| 0 <= i < reports.len() && (#[trigger] reports[i]).0 == key;
                if i > 0 {
                    assert(rest[i - 1].0 == key);
                }
            }
            if is_reported(rest, key) {
                let i = choose|i: int| 0 <= i < rest.len() && (#[trigger] rest[i]).0 == key;
                assert(reports[i + 1].0 == key);
            }
            assert(reports[0].0 == first);
        }
        if waiting.dom().contains(first) {
            let next = waiting.insert(first, Completion { waker: None, result: Some(result) });
            lemma_waker_after(next, rest, key);
        } else {
            lemma_waker_after(waiting, rest, key);
        }
    }
}

/// The last report on an operation counts: its result is on record, and no waker is.
pub proof fn law_last_report_counts(
    waiting: Map<u64, Completion>,
    reports: Seq<(u64, Result<usize, std::io::Error>)>,
    i: int,
)
    requires
        0 <= i < reports.len(),
        waiting.dom().contains(reports[i].0),
        forall|j: int| i < j < reports.len() ==> (#[trigger] reports[j]).0 != reports[i].0,
    ensures
        completed(waiting, reports).0.dom() == waiting.dom(),
        completed(waiting, reports).0[reports[i].0].waker is None,
        completed(waiting, reports).0[reports[i].0].result == Some(reports[i].1),
{
    let (key, r) = reports[i];
    let before = reports.take(i);
    let after = reports.skip(i + 1);
    let (m, _) = completed(waiting, before);
    lemma_completed_keeps_sockets(waiting, reports);
    lemma_completed_keeps_sockets(waiting, before);
    law_one_report(m, key, r);
    law_reports_in_pieces(m, seq![(key, r)], after);
    law_reports_in_pieces(waiting, before, seq![(key, r)] + after);
    assert(reports =~= before + (seq![(key, r)] + after));
    let n = completed(m, seq![(key, r)]).0;
    assert forall|j: int| 0 <= j < after.len() implies (#[trigger] after[j]).0 != key by {
        assert(after[j] == reports[i + 1 + j]);
    }
    law_reports_are_for_their_sockets(n, after, key);
}

/// Whether report `i` is the first on an operation that somebody waits for.
pub open spec fn wakes(
    waiting: Map<u64, Completion>,
    reports: Seq<(u64, Result<usize, std::io::Error>)>,
    i: int,
) -> bool {
    &&& waiting.dom().contains(reports[i].0)
    &&& waiting[reports[i].0].waker is Some
    &&& forall|j: int| 0 <= j < i ==> (#[trigger] reports[j]).0 != reports[i].0
}

/// The numbers of the first reports on operations that somebody waits for, in order.
pub open spec fn waking_reports(
    waiting: Map<u64, Completion>,
    reports: Seq<(u64, Result<usize, std::io::Error>)>,
) -> Seq<int> {
    Seq::new(reports.len(), |i: int| i).filter(|i: int| wakes(waiting, reports, i))
}

proof fn lemma_same_filter(s: Seq<int>, p: spec_fn(int) -> bool, q: spec_fn(int) -> bool)
    requires
        forall|i: int| 0 <= i < s.len() ==> p(#[trigger] s[i]) == q(s[i]),
    ensures
        s.filter(p) == s.filter(q),
    decreases s.len(),
{
    reveal(Seq::filter);
    if s.len() > 0 {
        assert forall|i: int| 0 <= i < s.drop_last().len() implies p(#[trigger] s.drop_last()[i])
            == q(s.drop_last()[i]) by {
            assert(s.drop_last()[i] == s[i]);
        }
        lemma_same_filter(s.drop_last(), p, q);
        assert(p(s[s.len() - 1]) == q(s[s.len() - 1]));
    }
}

/// Every task is woken that waits for a reported operation: its waker is due, once, in the
/// order of the first reports, and no other waker is.
pub proof fn law_reports_wake_in_order(
    waiting: Map<u64, Completion>,
    reports: Seq<(u64, Result<usize, std::io::Error>)>,
)
    ensures
        completed(waiting, reports).1 == waking_reports(waiting, reports).map_values(
            |i: int| waiting[reports[i].0].waker->0,
        ),
    decreases reports.len(),
{
    reveal(Seq::filter);
    let all = Seq::new(reports.len(), |i: int| i);
    let p = |i: int| wakes(waiting, reports, i);
    let due = |i: int| waiting[reports[i].0].waker->0;
    if reports.len() == 0 {
        assert(all.filter(p).map_values(due) =~= Seq::empty());
    } else {
        let last = reports.len() - 1;
        let before = reports.drop_last();
        let (key, r) = reports[last];
        let q = |i: int| wakes(waiting, before, i);
        let early = Seq::new(before.len(), |i: int| i);
        assert(all.drop_last() =~= early);
        assert forall|i: int| 0 <= i < early.len() implies p(#[trigger] early[i]) == q(early[i]) by {
            assert(before[i] == reports[i]);
            assert forall|j: int| 0 <= j < i implies before[j] == reports[j] by {}
            if p(i) {
                assert forall|j: int| 0 <= j < i implies (#[trigger] before[j]).0 != before[i].0 by {
                    assert(reports[j].0 != reports[i].0);
                }
            }
            if q(i) {
                assert forall|j: int| 0 <= j < i implies (#[trigger] reports[j]).0
                    != reports[i].0 by {
                    assert(before[j].0 != before[i].0);
                }
            }
        }
        lemma_same_filter(early, p, q);
        law_reports_wake_in_order(waiting, before);
        let due_before = |i: int| waiting[before[i].0].waker->0;
        let firsts = early.filter(q);
        assert(firsts.map_values(due) =~= firsts.map_values(due_before)) by {
            lemma_filter_range(early, before.len(), q);
        }
        assert(reports =~= before + seq![(key, r)]);
        law_reports_in_pieces(waiting, before, seq![(key, r)]);
        let m = completed(waiting, before).0;
        law_one_report(m, key, r);
        lemma_completed_keeps_sockets(waiting, before);
        if waiting.dom().contains(key) {
            lemma_waker_after(waiting, before, key);
            assert(is_reported(before, key) <==> exists|j: int|
                0 <= j < last && (#[trigger] reports[j]).0 == key) by {
                if is_reported(before, key) {
                    let j = choose|j: int| 0 <= j < before.len() && (#[trigger] before[j]).0 == key;
                    assert(reports[j].0 == key);
                }
                if exists|j: int| 0 <= j < last && (#[trigger] reports[j]).0 == key {
                    let j = choose|j: int| 0 <= j < last && (#[trigger] reports[j]).0 == key;
                    assert(before[j].0 == key);
                }
            }
        }
        assert(all[last] == last);
        assert(completed(waiting, reports).1 =~= all.filter(p).map_values(due));
    }
}

proof fn lemma_filter_range(s: Seq<int>, n: nat, q: spec_fn(int) -> bool)
    requires
        forall|i: int| 0 <= i < s.len() ==> 0 <= #[trigger] s[i] < n,
    ensures
        forall|k: int| 0 <= k < s.filter(q).len() ==> 0 <= #[trigger] s.filter(q)[k] < n,
    decreases s.len(),
{
    reveal(Seq::filter);
    if s.len() > 0 {
        assert forall|i: int| 0 <= i < s.drop_last().len() implies 0 <= #[trigger] s.drop_last()[i]
            < n by {
            assert(s.drop_last()[i] == s[i]);
        }
        lemma_filter_range(s.drop_last(), n, q);
        assert(0 <= s[s.len() - 1] < n);
        let early = s.drop_last().filter(q);
        assert forall|k: int| 0 <= k < s.filter(q).len() implies 0 <= #[trigger] s.filter(q)[k]
            < n by {
            if k < early.len() {
                assert(s.filter(q)[k] == early[k]);
            }
        }
    }
}

/// Whoever waits for a reported operation is woken.
pub proof fn law_reports_wake_everyone(
    waiting: Map<u64, Completion>,
    reports: Seq<(u64, Result<usize, std::io::Error>)>,
    i: int,
)
    requires
        0 <= i < reports.len(),
        waiting.dom().contains(reports[i].0),
        waiting[reports[i].0].waker is Some,
    ensures
        completed(waiting, reports).1.contains(waiting[reports[i].0].waker->0),
    decreases reports.len(),
{
    let (key, result) = reports[0];
    let rest = reports.drop_first();
    let w = waiting[reports[i].0].waker->0;
    let wakers = completed(waiting, reports).1;
    if reports[i].0 == key {
        assert(wakers[0] == w);
    } else {
        assert(rest[i - 1] == reports[i]);
        if waiting.dom().contains(key) {
            let next = waiting.insert(key, Completion { waker: None, result: Some(result) });
            law_reports_wake_everyone(next, rest, i - 1);
            let more = completed(next, rest).1;
            let j = choose|j: int| 0 <= j < more.len() && more[j] == w;
            if waiting[key].waker is Some {
                assert(wakers[j + 1] == w);
            } else {
                assert(wakers[j] == w);
            }
        } else {
            law_reports_wake_everyone(waiting, rest, i - 1);
        }
    }
}

/// Sockets that became ready can be taken in piece by piece, up to an operation that has no
/// waker: the wakers that are due add up in order.
pub proof fn law_ready_in_pieces(waiting: Map<u64, Completion>, a: Seq<u64>, b: Seq<u64>)
    ensures
        ({
            let (first, due, lost) = ready(waiting, a);
            ready(waiting, a + b) == if lost is Some {
                (first, due, lost)
            } else {
                let (second, more, late) = ready(first, b);
                (second, due + more, late)
            }
        }),
    decreases a.len(),
{
    if a.len() == 0 {
        assert(a + b =~= b);
        assert(Seq::<Waker>::empty() + ready(waiting, b).1 =~= ready(waiting, b).1);
    } else {
        let key = a[0];
        assert((a + b).drop_first() =~= a.drop_first() + b);
        if !waiting.dom().contains(key) {
            law_ready_in_pieces(waiting, a.drop_first(), b);
        } else if let Some(w) = waiting[key].waker {
            law_ready_in_pieces(waiting.remove(key), a.drop_first(), b);
            let (first, due, lost) = ready(waiting.remove(key), a.drop_first());
            let more = ready(first, b).1;
            assert(seq![w] + (due + more) =~= (seq![w] + due) + more);
        }
    }
}

/// One socket that became ready: the operation that waits for it is taken out and its waker is
/// due; an operation without a waker is reported back; and where nobody waits nothing happens.
pub proof fn law_one_ready(waiting: Map<u64, Completion>, key: u64)
    ensures
        ready(waiting, Seq::empty()) == (waiting, Seq::<Waker>::empty(), None::<u64>),
        ({
            let (after, wake, lost) = ready(waiting, seq![key]);
            &&& !waiting.dom().contains(key) ==> after == waiting && wake.len() == 0 && lost is None
            &&& waiting.dom().contains(key) ==> after == waiting.remove(key) && match waiting[key].waker {
                None => wake.len() == 0 && lost == Some(key),
                Some(w) => wake == seq![w] && lost is None,
            }
        }),
{
    let keys = seq![key];
    assert(keys.drop_first() =~= Seq::empty());
    assert(ready(waiting, Seq::empty()) == (waiting, Seq::<Waker>::empty(), None::<u64>));
    if waiting.dom().contains(key) {
        let next = waiting.remove(key);
        assert(ready(next, Seq::empty()) == (next, Seq::<Waker>::empty(), None::<u64>));
        assert(keys[0] == key);
        if let Some(w) = waiting[key].waker {
            assert(ready(waiting, seq![key]).1 =~= seq![w]);
        }
    }
}

/// What the first poll of an operation asks for. With readiness the socket is tried. Else an
/// operation that is under way is over or has to be waited for; and if none is, the hybrid
/// strategy tries once and the asynchronous one hands the operation to the kernel.
pub proof fn law_first_poll(v: ParkingView, key: u64, op: Op, waker: Waker)
    requires
        v.kind is Some,
    ensures
        ({
            let (after, action, wake) = polled(v, key, op, waker, IoEvent::Polled);
            let under_way = v.completion.dom().contains(key);
            &&& wake.len() == 0
            &&& after.kind == v.kind
            &&& match v.kind->0 {
                Kind::Epoll | Kind::UringPoll => after == v && action == IoAction::Try,
                Kind::Async | Kind::Hybrid => if under_way {
                    match v.completion[key].result {
                        Some(r) => action == IoAction::Ready(r) && after.completion
                            == v.completion.remove(key),
                        None => action == IoAction::Pending && after.completion
                            == v.completion.insert(
                            key,
                            Completion { waker: Some(waker), result: None },
                        ),
                    }
                } else if v.kind == Some(Kind::Hybrid) {
                    after == v && action == IoAction::TryOnce
                } else {
                    action == IoAction::Submit && after.completion == v.completion.insert(
                        key,
                        Completion { waker: None, result: None },
                    )
                },
            }
        }),
{
}

/// What a call of the socket API that went through or failed leads to. What went through is
/// over. With readiness an error is over too, and what would block waits: an accept and a read
/// until the socket is readable, a write until it is writable, as the poller reports under
/// epoll and the ring under uringpoll. The other strategies hand what failed to the kernel.
pub proof fn law_tried(v: ParkingView, key: u64, op: Op, waker: Waker, attempt: Attempt)
    requires
        v.kind is Some,
    ensures
        ({
            let (after, action, wake) = polled(v, key, op, waker, IoEvent::Tried(attempt));
            let readable = op == Op::Accept || op == Op::Read;
            &&& wake.len() == 0
            &&& after.kind == v.kind
            &&& match attempt {
                Attempt::Done(n) => after == v && action == IoAction::Ready(Ok(n)),
                Attempt::Failed(e) => match v.kind->0 {
                    Kind::Epoll | Kind::UringPoll => after == v && action == IoAction::Ready(
                        Err(e),
                    ),
                    Kind::Async | Kind::Hybrid => action == IoAction::Submit && after.completion
                        == v.completion.insert(key, Completion { waker: None, result: None }),
                },
                Attempt::WouldBlock => match v.kind->0 {
                    Kind::Epoll => {
                        &&& action == IoAction::Park(Interest::Poller { readable })
                        &&& after.completion == v.completion.insert(
                            key,
                            Completion { waker: Some(waker), result: None },
                        )
                    },
                    Kind::UringPoll => {
                        &&& action == IoAction::Park(Interest::Ring { readable })
                        &&& after.completion == v.completion.insert(
                            key,
                            Completion { waker: Some(waker), result: None },
                        )
                    },
                    Kind::Async | Kind::Hybrid => action == IoAction::Submit && after.completion
                        == v.completion.insert(key, Completion { waker: None, result: None }),
                },
            }
        }),
{
}

/// An operation that was handed to the kernel goes on as if its reports had been taken in
/// first and the task had polled then. The wakers of the reports are due.
pub proof fn law_submitted(
    v: ParkingView,
    key: u64,
    op: Op,
    waker: Waker,
    reports: VecDeque<(u64, Result<usize, std::io::Error>)>,
)
    requires
        v.kind == Some(Kind::Async) || v.kind == Some(Kind::Hybrid),
        v.completion.dom().contains(key),
    ensures
        ({
            let (after, action, wake) = polled(v, key, op, waker, IoEvent::Submitted(reports));
            let (recorded, due) = completed(v.completion, reports@);
            let next = ParkingView { completion: recorded, kind: v.kind };
            let (later, then_action, _) = polled(next, key, op, waker, IoEvent::Polled);
            wake == due && after == later && action == then_action
        }),
{
    lemma_completed_keeps_sockets(v.completion, reports@);
}

} // verus!
