use greeter::parking::{Kind, Parking};
use greeter::runtime::{spawn, Run, RunQueue, Runtime, Step, NR_TASKS};

fn start(kind: Kind) -> (Run<u32>, RunQueue<u32>) {
    let mut parking = Parking::new();
    (Runtime::new(kind).run(&mut parking), RunQueue::new())
}

#[test]
fn an_idle_executor_polls_twice_and_waits() {
    let (mut run, mut queue) = start(Kind::Epoll);
    for _ in 0..3 {
        assert!(matches!(run.step(&mut queue, false), Step::PollMain));
        assert!(matches!(run.step(&mut queue, false), Step::PollMain));
        assert!(matches!(run.step(&mut queue, false), Step::Wait));
    }
}

#[test]
fn tasks_run_in_turn() {
    let (mut run, mut queue) = start(Kind::Hybrid);
    spawn(&mut queue, 1);
    assert!(matches!(run.step(&mut queue, false), Step::PollMain));
    spawn(&mut queue, 2);
    assert!(matches!(run.step(&mut queue, false), Step::Run(1)));
    queue.wake(3);
    assert!(matches!(run.step(&mut queue, false), Step::Run(2)));
    queue.wake(1);
    assert!(matches!(run.step(&mut queue, false), Step::Run(3)));
    assert!(matches!(run.step(&mut queue, false), Step::Run(1)));
    assert!(matches!(run.step(&mut queue, false), Step::PollMain));
    // What the main task wakes now runs after the wait.
    queue.wake(4);
    assert!(matches!(run.step(&mut queue, false), Step::Wait));
    assert!(matches!(run.step(&mut queue, false), Step::PollMain));
    assert!(matches!(run.step(&mut queue, false), Step::Run(4)));
}

#[test]
fn the_executor_stops_with_the_main_task() {
    let (mut run, mut queue) = start(Kind::Async);
    spawn(&mut queue, 1);
    assert!(matches!(run.step(&mut queue, false), Step::PollMain));
    assert!(matches!(run.step(&mut queue, true), Step::Finish));
    assert!(matches!(run.step(&mut queue, false), Step::Finish));
    let (mut run, mut queue) = start(Kind::Async);
    assert!(matches!(run.step(&mut queue, false), Step::PollMain));
    assert!(matches!(run.step(&mut queue, false), Step::PollMain));
    assert!(matches!(run.step(&mut queue, true), Step::Finish));
}

#[test]
fn a_finished_poll_means_nothing_to_a_task() {
    let (mut run, mut queue) = start(Kind::Async);
    spawn(&mut queue, 1);
    assert!(matches!(run.step(&mut queue, true), Step::PollMain));
    assert!(matches!(run.step(&mut queue, false), Step::Run(1)));
    assert!(matches!(run.step(&mut queue, true), Step::PollMain));
}

#[test]
fn a_pinned_executor_is_the_same_executor() {
    let runtime = Runtime::new(Kind::UringPoll);
    assert_eq!(runtime.pin_to_cpu(0), runtime);
    assert_eq!(runtime.kind, Kind::UringPoll);
    assert_eq!(NR_TASKS, 2048);
}
