use zaxis_tasks::{Command, Event, Phase, Task, TaskRunner};

/// A stand-in axis: applies the commands that change its settings.
struct FakeAxis {
    position: i64,
    max_speed: u64,
    stopped: bool,
}

impl FakeAxis {
    fn perform(&mut self, c: Command) {
        match c {
            Command::SetTarget(p) => self.position = p,
            Command::SetTargetRelative(d) => self.position += d,
            Command::SetMaxSpeed(v) => self.max_speed = v,
            Command::Stop => self.stopped = true,
            Command::Wait(_) => {}
            // homing runs at its own speed
            Command::CalibrateOrigin => self.max_speed = 5,
        }
    }
}

fn drain(runner: &mut TaskRunner, speed: u64) -> Vec<Command> {
    let mut out = Vec::new();
    while let Some(c) = runner.step(speed) {
        out.push(c);
        assert!(out.len() < 100);
    }
    out
}

#[test]
fn jog_then_home_before_idle() {
    let mut runner = TaskRunner::new();
    assert!(!runner.submit(Task::MoveUp));
    assert_eq!(runner.step(50), Some(Command::SetTargetRelative(40000)));
    assert_eq!(runner.step(50), Some(Command::Wait(Event::Idle)));
    assert!(runner.submit(Task::MoveZero));
    assert_eq!(
        drain(&mut runner, 50),
        vec![
            Command::Stop,
            Command::Wait(Event::Idle),
            Command::CalibrateOrigin,
            Command::SetMaxSpeed(50),
            Command::SetTarget(0),
            Command::Wait(Event::Idle),
        ]
    );
    assert!(runner.is_idle());
}

#[test]
fn second_jog_waits_for_cancellation() {
    let mut runner = TaskRunner::new();
    runner.submit(Task::MoveUp);
    assert_eq!(runner.step(50), Some(Command::SetTargetRelative(40000)));
    assert!(runner.submit(Task::MoveDown));
    assert_eq!(
        drain(&mut runner, 50),
        vec![
            Command::Stop,
            Command::Wait(Event::Idle),
            Command::SetTargetRelative(-40000),
            Command::Wait(Event::Idle),
        ]
    );
}

#[test]
fn cancel_of_every_task_ends_idle() {
    for t in [Task::MoveUp, Task::MoveDown, Task::MoveZero] {
        for issued in 0..5usize {
            let c = t.cancel(issued, 50);
            assert_eq!(c[0], Command::Stop);
            assert_eq!(c[1], Command::Wait(Event::Idle));
        }
        let mut runner = TaskRunner::new();
        runner.submit(t);
        runner.step(50);
        assert!(runner.stop());
        let out = drain(&mut runner, 50);
        assert_eq!(out[0], Command::Stop);
        assert_eq!(out[1], Command::Wait(Event::Idle));
        assert!(runner.is_idle());
    }
}

#[test]
fn homing_cancelled_mid_calibration_restores_speed() {
    let mut axis = FakeAxis { position: 7000, max_speed: 50, stopped: false };
    let mut runner = TaskRunner::new();
    runner.submit(Task::MoveZero);
    let c = runner.step(axis.max_speed).unwrap();
    assert_eq!(c, Command::CalibrateOrigin);
    axis.perform(c);
    assert_eq!(axis.max_speed, 5);
    assert!(runner.submit(Task::MoveUp));
    let mut out = Vec::new();
    while let Some(c) = runner.step(axis.max_speed) {
        axis.perform(c);
        out.push(c);
    }
    assert_eq!(
        out,
        vec![
            Command::Stop,
            Command::Wait(Event::Idle),
            Command::SetMaxSpeed(50),
            Command::SetTargetRelative(40000),
            Command::Wait(Event::Idle),
        ]
    );
    assert_eq!(axis.max_speed, 50);
    assert!(axis.stopped);
    assert_eq!(axis.position, 47000);
}

#[test]
fn homing_cancel_restores_speed_once_started() {
    for issued in 1..5usize {
        assert_eq!(
            Task::MoveZero.cancel(issued, 30),
            vec![Command::Stop, Command::Wait(Event::Idle), Command::SetMaxSpeed(30)]
        );
    }
    assert_eq!(
        Task::MoveZero.cancel(0, 50),
        vec![Command::Stop, Command::Wait(Event::Idle)]
    );
    assert_eq!(
        Task::MoveUp.cancel(1, 50),
        vec![Command::Stop, Command::Wait(Event::Idle)]
    );
}

#[test]
fn homing_cancelled_at_final_wait_restores_speed() {
    let mut runner = TaskRunner::new();
    runner.submit(Task::MoveZero);
    let mut out = Vec::new();
    for _ in 0..4 {
        out.push(runner.step(60).unwrap());
    }
    assert_eq!(out[3], Command::Wait(Event::Idle));
    assert!(runner.submit(Task::MoveDown));
    assert_eq!(
        drain(&mut runner, 60),
        vec![
            Command::Stop,
            Command::Wait(Event::Idle),
            Command::SetMaxSpeed(60),
            Command::SetTargetRelative(-40000),
            Command::Wait(Event::Idle),
        ]
    );
}

#[test]
fn same_task_twice_runs_twice() {
    let mut runner = TaskRunner::new();
    runner.submit(Task::MoveDown);
    let first = drain(&mut runner, 50);
    assert!(runner.is_idle());
    assert!(!runner.submit(Task::MoveDown));
    let second = drain(&mut runner, 50);
    assert_eq!(first, second);
    assert_eq!(
        first,
        vec![Command::SetTargetRelative(-40000), Command::Wait(Event::Idle)]
    );
}

#[test]
fn every_task_has_run_and_cancel() {
    for t in [Task::MoveUp, Task::MoveDown, Task::MoveZero] {
        let run = t.run(50);
        assert!(run.len() >= 2);
        assert_ne!(run[0], Command::Stop);
        assert_eq!(*run.last().unwrap(), Command::Wait(Event::Idle));
        assert!(!t.cancel(1, 50).is_empty());
    }
    assert_eq!(
        Task::MoveZero.run(12),
        vec![
            Command::CalibrateOrigin,
            Command::SetMaxSpeed(12),
            Command::SetTarget(0),
            Command::Wait(Event::Idle),
        ]
    );
    assert_eq!(
        Task::MoveUp.run(12),
        vec![Command::SetTargetRelative(40000), Command::Wait(Event::Idle)]
    );
}

#[test]
fn submissions_during_cancel_coalesce() {
    let mut runner = TaskRunner::new();
    runner.submit(Task::MoveUp);
    runner.step(50);
    assert!(runner.submit(Task::MoveDown));
    assert_eq!(runner.step(50), Some(Command::Stop));
    assert!(!runner.submit(Task::MoveZero));
    assert_eq!(runner.pending(), Some(Task::MoveZero));
    assert_eq!(runner.current().unwrap().phase, Phase::Cancelling);
    assert_eq!(
        drain(&mut runner, 40),
        vec![
            Command::Wait(Event::Idle),
            Command::CalibrateOrigin,
            Command::SetMaxSpeed(40),
            Command::SetTarget(0),
            Command::Wait(Event::Idle),
        ]
    );
}

#[test]
fn stop_drops_waiting_submission() {
    let mut runner = TaskRunner::new();
    runner.submit(Task::MoveUp);
    runner.step(50);
    runner.submit(Task::MoveDown);
    assert!(!runner.stop());
    assert_eq!(runner.pending(), None);
    assert_eq!(
        drain(&mut runner, 50),
        vec![Command::Stop, Command::Wait(Event::Idle)]
    );
}

#[test]
fn empty_runner_hands_out_nothing() {
    let mut runner = TaskRunner::new();
    assert!(runner.is_idle());
    assert_eq!(runner.step(50), None);
    assert!(!runner.stop());
    assert_eq!(runner.current(), None);
}

#[test]
fn preempt_before_first_command() {
    let mut runner = TaskRunner::new();
    runner.submit(Task::MoveZero);
    assert!(runner.submit(Task::MoveUp));
    assert_eq!(
        drain(&mut runner, 50),
        vec![
            Command::Stop,
            Command::Wait(Event::Idle),
            Command::SetTargetRelative(40000),
            Command::Wait(Event::Idle),
        ]
    );
}

#[test]
fn suspending_commands() {
    assert!(Command::Wait(Event::Idle).suspends());
    assert!(Command::CalibrateOrigin.suspends());
    assert!(!Command::Stop.suspends());
    assert!(!Command::SetTarget(0).suspends());
    assert!(!Command::SetMaxSpeed(3).suspends());
    assert!(!Command::SetTargetRelative(1).suspends());
}
