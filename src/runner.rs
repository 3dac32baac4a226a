use vstd::prelude::*;
use crate::task::{cancel_program, run_program, Command, Task};

verus! {

/// Which procedure of the active task is being handed out.
#[derive(Debug, Clone, Copy, PartialEq, Eq, Structural)]
pub enum Phase {
    /// The run procedure.
    Running,
    /// The cancel procedure, which replaces the run procedure.
    Cancelling,
}

/// The task in the runner's slot, with the state its procedures share.
#[derive(Debug, Clone, Copy, PartialEq, Eq, Structural)]
pub struct Active {
    pub task: Task,
    pub phase: Phase,
    /// Commands of the current procedure handed out so far.
    pub issued: usize,
    /// Commands the run procedure had handed out when it was cancelled.
    pub run_issued: usize,
    /// Speed limit read when the run procedure started.
    pub saved_speed: u64,
}

/// The runner as a plain value: the active task, and the submission that
/// waits for its cancellation to finish.
pub struct RunnerState {
    pub current: Option<Active>,
    pub pending: Option<Task>,
}

/// The procedure that an active task is handing out.
pub open spec fn program_of(a: Active) -> Seq<Command> {
    match a.phase {
        Phase::Running => run_program(a.task, a.saved_speed),
        Phase::Cancelling => cancel_program(a.task, a.run_issued as nat, a.saved_speed),
    }
}

/// A task just submitted to an empty slot: nothing handed out yet.
pub open spec fn started(t: Task) -> Active {
    Active { task: t, phase: Phase::Running, issued: 0, run_issued: 0, saved_speed: 0 }
}

impl RunnerState {
    /// At most one procedure in progress, within its program, and a waiting
    /// submission only behind a cancellation.
    pub open spec fn wf(self) -> bool {
        match self.current {
            None => self.pending is None,
            Some(a) => {
                &&& a.issued <= program_of(a).len()
                &&& a.phase == Phase::Running ==> self.pending is None
                &&& a.phase == Phase::Cancelling ==> a.run_issued <= run_program(
                    a.task,
                    a.saved_speed,
                ).len()
            },
        }
    }

    pub open spec fn is_idle(self) -> bool {
        self.current is None
    }
}

/// The state after a submission, and whether the operation the driver is
/// awaiting for the run procedure must be abandoned. A running task is
/// replaced by its cancel procedure; during a cancellation the newest
/// submission waits, and replaces one that was waiting.
pub open spec fn after_submit(s: RunnerState, t: Task) -> (RunnerState, bool) {
    match s.current {
        None => (RunnerState { current: Some(started(t)), pending: None }, false),
        Some(a) => if a.phase == Phase::Running {
            (
                RunnerState {
                    current: Some(
                        Active { phase: Phase::Cancelling, issued: 0, run_issued: a.issued, ..a },
                    ),
                    pending: Some(t),
                },
                true,
            )
        } else {
            (RunnerState { current: s.current, pending: Some(t) }, false)
        },
    }
}

/// The state after a stop request: a running task is cancelled, and nothing
/// follows the cancellation.
pub open spec fn after_stop(s: RunnerState) -> (RunnerState, bool) {
    match s.current {
        None => (s, false),
        Some(a) => if a.phase == Phase::Running {
            (
                RunnerState {
                    current: Some(
                        Active { phase: Phase::Cancelling, issued: 0, run_issued: a.issued, ..a },
                    ),
                    pending: None,
                },
                true,
            )
        } else {
            (RunnerState { current: s.current, pending: None }, false)
        },
    }
}

/// The state after the driver asks for its next command, having completed
/// the previous one, with `speed` the axis's speed limit at that moment; and
/// the command, or `None` once the slot is empty. A run procedure reads the
/// speed limit when it hands out its first command. When a cancellation
/// completes, the waiting submission starts at once.
pub open spec fn after_step(s: RunnerState, speed: u64) -> (RunnerState, Option<Command>) {
    match s.current {
        None => (s, None),
        Some(a) => {
            let a1 = if a.phase == Phase::Running && a.issued == 0 {
                Active { saved_speed: speed, ..a }
            } else {
                a
            };
            let p = program_of(a1);
            if a1.issued < p.len() {
                (
                    RunnerState {
                        current: Some(Active { issued: (a1.issued + 1) as usize, ..a1 }),
                        pending: s.pending,
                    },
                    Some(p[a1.issued as int]),
                )
            } else {
                match s.pending {
                    None => (RunnerState { current: None, pending: None }, None),
                    Some(t) => (
                        RunnerState {
                            current: Some(
                                Active {
                                    task: t,
                                    phase: Phase::Running,
                                    issued: 1,
                                    run_issued: 0,
                                    saved_speed: speed,
                                },
                            ),
                            pending: None,
                        },
                        Some(run_program(t, speed)[0]),
                    ),
                }
            }
        },
    }
}

/// Runs `after_step` `n` times with the speed limit `speed`, collecting the
/// answers.
pub open spec fn drive(s: RunnerState, n: nat, speed: u64) -> (RunnerState, Seq<Option<Command>>)
    decreases n,
{
    if n == 0 {
        (s, Seq::empty())
    } else {
        let (s1, c) = after_step(s, speed);
        let (s2, cs) = drive(s1, (n - 1) as nat, speed);
        (s2, seq![c] + cs)
    }
}

/// A single slot for cancellable tasks on one axis.
pub struct TaskRunner {
    current: Option<Active>,
    pending: Option<Task>,
}

impl View for TaskRunner {
    type V = RunnerState;

    closed spec fn view(&self) -> RunnerState {
        RunnerState { current: self.current, pending: self.pending }
    }
}

impl Active {
    /// The commands of the procedure being handed out.
    pub fn program(&self) -> (r: Vec<Command>)
        ensures
            r@ == program_of(*self),
    {
        match self.phase {
            Phase::Running => self.task.run(self.saved_speed),
            Phase::Cancelling => self.task.cancel(self.run_issued, self.saved_speed),
        }
    }
}

impl TaskRunner {
    /// An empty slot.
    pub fn new() -> (r: TaskRunner)
        ensures
            r@ == (RunnerState { current: None, pending: None }),
    {
        TaskRunner { current: None, pending: None }
    }

    /// Submits a task. Returns true when the driver must abandon the
    /// operation it awaits for the run procedure that this submission cancels.
    pub fn submit(&mut self, task: Task) -> (preempt: bool)
        requires
            old(self)@.wf(),
        ensures
            final(self)@.wf(),
            (final(self)@, preempt) == after_submit(old(self)@, task),
    {
        match self.current {
            None => {
                self.current = Some(
                    Active { task, phase: Phase::Running, issued: 0, run_issued: 0, saved_speed: 0 },
                );
                false
            },
            Some(a) => {
                self.pending = Some(task);
                if a.phase == Phase::Running {
                    self.current = Some(
                        Active { phase: Phase::Cancelling, issued: 0, run_issued: a.issued, ..a },
                    );
                    true
                } else {
                    false
                }
            },
        }
    }

    /// Cancels the running task, and drops a submission that waits. Returns
    /// true when the driver must abandon the operation it awaits.
    pub fn stop(&mut self) -> (preempt: bool)
        requires
            old(self)@.wf(),
        ensures
            final(self)@.wf(),
            (final(self)@, preempt) == after_stop(old(self)@),
    {
        match self.current {
            None => false,
            Some(a) => {
                self.pending = None;
                if a.phase == Phase::Running {
                    self.current = Some(
                        Active { phase: Phase::Cancelling, issued: 0, run_issued: a.issued, ..a },
                    );
                    true
                } else {
                    false
                }
            },
        }
    }

    /// The next command for the driver, which has completed the previous one
    /// and reads `speed` as the axis's present speed limit; `None` once no
    /// task is active.
    pub fn step(&mut self, speed: u64) -> (r: Option<Command>)
        requires
            old(self)@.wf(),
        ensures
            final(self)@.wf(),
            (final(self)@, r) == after_step(old(self)@, speed),
    {
        match self.current {
            None => None,
            Some(a) => {
                let mut a1 = a;
                if a.phase == Phase::Running && a.issued == 0 {
                    a1.saved_speed = speed;
                }
                let p = a1.program();
                if a1.issued < p.len() {
                    let c = p[a1.issued];
                    a1.issued = a1.issued + 1;
                    self.current = Some(a1);
                    Some(c)
                } else {
                    match self.pending {
                        None => {
                            self.current = None;
                            None
                        },
                        Some(t) => {
                            let p = t.run(speed);
                            self.current = Some(
                                Active {
                                    task: t,
                                    phase: Phase::Running,
                                    issued: 1,
                                    run_issued: 0,
                                    saved_speed: speed,
                                },
                            );
                            self.pending = None;
                            Some(p[0])
                        },
                    }
                }
            },
        }
    }

    /// The active task, if any.
    pub fn current(&self) -> (r: Option<Active>)
        ensures
            r == self@.current,
    {
        self.current
    }

    /// The submission that waits for a cancellation, if any.
    pub fn pending(&self) -> (r: Option<Task>)
        ensures
            r == self@.pending,
    {
        self.pending
    }

    /// Whether no task is active.
    pub fn is_idle(&self) -> (r: bool)
        ensures
            r == self@.is_idle(),
    {
        self.current.is_none()
    }
}

} // verus!
