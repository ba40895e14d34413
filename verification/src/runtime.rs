//! The executor of one thread: which task runs next, and when the thread may sleep.

use crate::parking::{Kind, Parking, ParkingView};
use std::collections::VecDeque;
use vstd::prelude::*;

verus! {

/// How many tasks a queue makes room for.
pub const NR_TASKS: usize = 2048;

/// The tasks that can run, in the order in which they were spawned or woken.
pub struct RunQueue<T> {
    runnable: VecDeque<T>,
}

impl<T> View for RunQueue<T> {
    type V = Seq<T>;

    closed spec fn view(&self) -> Seq<T> {
        self.runnable@
    }
}

impl<T> RunQueue<T> {
    /// No task can run.
    pub fn new() -> (queue: RunQueue<T>)
        ensures
            queue@ == Seq::<T>::empty(),
    {
        RunQueue { runnable: VecDeque::with_capacity(NR_TASKS) }
    }

    /// A task was woken: it can run.
    pub fn wake(&mut self, task: T)
        ensures
            final(self)@ == old(self)@.push(task),
    {
        self.runnable.push_back(task);
    }

    /// Takes all tasks.
    fn take(&mut self) -> (batch: VecDeque<T>)
        ensures
            batch@ == old(self)@,
            final(self)@ == Seq::<T>::empty(),
    {
        let mut batch: VecDeque<T> = VecDeque::with_capacity(NR_TASKS);
        batch.append(&mut self.runnable);
        assert(batch@ =~= old(self)@);
        batch
    }
}

/// Adds a task, which runs when its turn comes.
pub fn spawn<T>(queue: &mut RunQueue<T>, task: T)
    ensures
        final(queue)@ == old(queue)@.push(task),
{
    queue.wake(task);
}

/// What the executor does next.
pub enum Step<T> {
    /// Poll the main task.
    PollMain,
    /// Run a task.
    Run(T),
    /// Wait for reports, asleep if there are none.
    Wait,
    /// Stop: the main task is over.
    Finish,
}

/// What the executor did last.
#[derive(PartialEq, Eq, Structural, Debug, Clone, Copy)]
pub enum Phase {
    /// Nothing yet, or it has waited.
    Idle,
    /// It has polled the main task, and the tasks are to run.
    PolledFirst,
    /// It has run a task.
    Ran,
    /// It has polled the main task after the tasks had run.
    PolledAgain,
    /// It has stopped.
    Finished,
}

/// The mathematical value of an executor and its queue.
pub struct RunView<T> {
    pub phase: Phase,
    /// The tasks that it has taken from the queue and not yet run.
    pub batch: Seq<T>,
    pub queue: Seq<T>,
}

impl<T> RunView<T> {
    /// The tasks that can run, in order.
    pub open spec fn pending(self) -> Seq<T> {
        self.batch + self.queue
    }
}

/// Runs the next task; if there is none, polls the main task again. The queue is only
/// looked at when all the tasks that were taken from it have run.
pub open spec fn run_next<T>(v: RunView<T>) -> (RunView<T>, Step<T>) {
    if v.batch.len() > 0 {
        (RunView { phase: Phase::Ran, batch: v.batch.drop_first(), ..v }, Step::Run(v.batch[0]))
    } else if v.queue.len() > 0 {
        (
            RunView { phase: Phase::Ran, batch: v.queue.drop_first(), queue: Seq::empty() },
            Step::Run(v.queue[0]),
        )
    } else {
        (RunView { phase: Phase::PolledAgain, ..v }, Step::PollMain)
    }
}

/// What comes next. `over` tells, after a poll of the main task, whether it is over.
pub open spec fn stepped<T>(v: RunView<T>, over: bool) -> (RunView<T>, Step<T>) {
    match v.phase {
        Phase::Idle => (RunView { phase: Phase::PolledFirst, ..v }, Step::PollMain),
        Phase::PolledFirst => if over {
            (RunView { phase: Phase::Finished, ..v }, Step::Finish)
        } else {
            run_next(v)
        },
        Phase::Ran => run_next(v),
        Phase::PolledAgain => if over {
            (RunView { phase: Phase::Finished, ..v }, Step::Finish)
        } else {
            (RunView { phase: Phase::Idle, ..v }, Step::Wait)
        },
        Phase::Finished => (v, Step::Finish),
    }
}

/// An executor at work.
pub struct Run<T> {
    phase: Phase,
    batch: VecDeque<T>,
}

impl<T> Run<T> {
    /// The value of the executor, with its queue.
    pub closed spec fn with(self, queue: Seq<T>) -> RunView<T> {
        RunView { phase: self.phase, batch: self.batch@, queue }
    }

    /// Runs the next task, or polls the main task again.
    fn run_next(&mut self, queue: &mut RunQueue<T>) -> (step: Step<T>)
        ensures
            run_next(old(self).with(old(queue)@)) == (final(self).with(final(queue)@), step),
    {
        if self.batch.len() == 0 {
            self.batch = queue.take();
        }
        let ghost batch = self.batch@;
        match self.batch.pop_front() {
            Some(task) => {
                assert(self.batch@ =~= batch.drop_first());
                self.phase = Phase::Ran;
                Step::Run(task)
            },
            None => {
                assert(old(self).batch@ =~= Seq::empty());
                assert(old(queue)@ =~= Seq::empty());
                self.phase = Phase::PolledAgain;
                Step::PollMain
            },
        }
    }

    /// Says what to do next. `over` tells, after a poll of the main task, whether it is over.
    pub fn step(&mut self, queue: &mut RunQueue<T>, over: bool) -> (step: Step<T>)
        ensures
            stepped(old(self).with(old(queue)@), over) == (final(self).with(final(queue)@), step),
    {
        match self.phase {
            Phase::Idle => {
                self.phase = Phase::PolledFirst;
                Step::PollMain
            },
            Phase::PolledFirst => if over {
                self.phase = Phase::Finished;
                Step::Finish
            } else {
                self.run_next(queue)
            },
            Phase::Ran => self.run_next(queue),
            Phase::PolledAgain => if over {
                self.phase = Phase::Finished;
                Step::Finish
            } else {
                self.phase = Phase::Idle;
                Step::Wait
            },
            Phase::Finished => Step::Finish,
        }
    }
}

/// `core_affinity::set_for_current`: asks the system to keep the calling thread on a core.
/// Nothing is said of whether the system complies. It sets a bit in a set of 1024 cores and
/// panics beyond it.
#[verifier::external_body]
fn stay_on_core(id: usize)
    requires
        id < 1024,
{
    core_affinity::set_for_current(core_affinity::CoreId { id });
}

/// The settings of an executor.
#[derive(PartialEq, Eq, Structural, Debug, Clone, Copy)]
pub struct Runtime {
    pub kind: Kind,
}

impl Runtime {
    /// An executor with the given I/O strategy.
    pub fn new(kind: Kind) -> (runtime: Runtime)
        ensures
            runtime.kind == kind,
    {
        Runtime { kind }
    }

    /// Keeps the calling thread on a core.
    pub fn pin_to_cpu(self, id: usize) -> (runtime: Self)
        requires
            id < 1024,
        ensures
            runtime == self,
    {
        stay_on_core(id);
        self
    }

    /// Starts to work: from now on the strategy holds for the sockets of the thread.
    pub fn run<T>(&self, parking: &mut Parking) -> (run: Run<T>)
        ensures
            final(parking)@ == (ParkingView { kind: Some(self.kind), ..old(parking)@ }),
            forall|queue: Seq<T>| #[trigger]
                run.with(queue) == (RunView { phase: Phase::Idle, batch: Seq::empty(), queue }),
    {
        parking.set_kind(self.kind);
        let run = Run { phase: Phase::Idle, batch: VecDeque::new() };
        assert(run.batch@ =~= Seq::<T>::empty());
        run
    }
}

/// The value of an executor with a queue is its own state and that queue: with another queue
/// only the queue differs. So what is spawned or woken changes the queue and nothing else.
pub proof fn law_executor_and_queue<T>(run: Run<T>, a: Seq<T>, b: Seq<T>)
    ensures
        run.with(a).queue == a,
        run.with(b) == (RunView { queue: b, ..run.with(a) }),
{
}

/// Tasks run in turn. A step that runs a task runs the one that has waited longest, and
/// every other step leaves the tasks that can run as they are.
pub proof fn law_tasks_run_in_turn<T>(v: RunView<T>, over: bool)
    ensures
        ({
            let (after, step) = stepped(v, over);
            match step {
                Step::Run(task) => v.pending() == seq![task] + after.pending(),
                _ => after.pending() == v.pending(),
            }
        }),
{
    let (after, step) = stepped(v, over);
    if let Step::Run(task) = step {
        assert(v.pending() =~= seq![task] + after.pending());
    }
}

/// Tasks that can run do run: once the main task was polled and is not over, or a task has
/// run, the next step runs the task that has waited longest, if there is one.
pub proof fn law_tasks_do_run<T>(v: RunView<T>, over: bool)
    requires
        v.phase == Phase::Ran || v.phase == Phase::PolledFirst && !over,
        v.pending().len() > 0,
    ensures
        stepped(v, over).1 == Step::Run(v.pending()[0]),
        stepped(v, over).0.phase == Phase::Ran,
        stepped(v, over).0.pending() == v.pending().skip(1),
{
    assert(stepped(v, over).0.pending() =~= v.pending().skip(1));
}

/// The executor after `n` steps in which the main task is not over.
pub open spec fn after_steps<T>(v: RunView<T>, n: nat) -> RunView<T>
    decreases n,
{
    if n == 0 {
        v
    } else {
        stepped(after_steps(v, (n - 1) as nat), false).0
    }
}

/// All tasks that can run are run in as many steps, in order, and then the main task is polled
/// again.
pub proof fn law_all_pending_tasks_run<T>(v: RunView<T>, n: nat)
    requires
        v.phase == Phase::Ran || v.phase == Phase::PolledFirst,
        n <= v.pending().len(),
    ensures
        after_steps(v, n).pending() == v.pending().skip(n as int),
        stepped(after_steps(v, n), false).1 == if n < v.pending().len() {
            Step::Run(v.pending()[n as int])
        } else {
            Step::PollMain
        },
        after_steps(v, n).phase == Phase::Ran || n == 0,
    decreases n,
{
    let p = v.pending();
    if n == 0 {
        assert(p.skip(0) =~= p);
    } else {
        law_all_pending_tasks_run(v, (n - 1) as nat);
        law_tasks_do_run(after_steps(v, (n - 1) as nat), false);
        assert(p.skip(n - 1).skip(1) =~= p.skip(n as int));
    }
    if n < p.len() {
        assert(p.skip(n as int)[0] == p[n as int]);
        law_tasks_do_run(after_steps(v, n), false);
    } else {
        assert(after_steps(v, n).pending().len() == 0);
    }
}

/// The turns of the executor when no task can run: it polls the main task, looks for tasks,
/// polls the main task again, waits, and starts over; and it stops when the main task is over.
pub proof fn law_turns<T>(v: RunView<T>, over: bool)
    ensures
        ({
            let (after, step) = stepped(v, over);
            match v.phase {
                Phase::Idle => step is PollMain && after.phase == Phase::PolledFirst,
                Phase::PolledFirst => {
                    &&& over ==> step is Finish && after.phase == Phase::Finished
                    &&& !over && v.pending().len() == 0 ==> step is PollMain && after.phase
                        == Phase::PolledAgain
                },
                Phase::Ran => v.pending().len() == 0 ==> step is PollMain && after.phase
                    == Phase::PolledAgain,
                Phase::PolledAgain => {
                    &&& over ==> step is Finish && after.phase == Phase::Finished
                    &&& !over ==> step is Wait && after.phase == Phase::Idle
                },
                Phase::Finished => step is Finish && after.phase == Phase::Finished,
            }
        }),
{
}

/// A task that is spawned or woken comes after all that can run already.
pub proof fn law_woken_runs_last<T>(v: RunView<T>, task: T)
    ensures
        (RunView { queue: v.queue.push(task), ..v }).pending() == v.pending().push(task),
{
    assert((RunView { queue: v.queue.push(task), ..v }).pending() =~= v.pending().push(task));
}

/// The thread waits only after the main task was polled with no task left to run, and was
/// not over. The executor stops only when the main task is over.
pub proof fn law_waits_when_nothing_is_left<T>(v: RunView<T>, over: bool)
    ensures
        stepped(v, over).1 is Wait ==> v.phase == Phase::PolledAgain && !over,
        stepped(v, over).0.phase == Phase::PolledAgain && v.phase != Phase::PolledAgain
            ==> v.pending().len() == 0 && stepped(v, over).1 is PollMain,
        stepped(v, over).1 is Finish && v.phase != Phase::Finished ==> over,
{
}

} // verus!
