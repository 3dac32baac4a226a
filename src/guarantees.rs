use vstd::prelude::*;
use crate::runner::{after_step, after_stop, after_submit, drive, program_of, Active, Phase, RunnerState};
use crate::task::{cancel_program, run_program, Command, Event, Task};

verus! {

/// A sequence of commands as the runner hands it out, one per step.
pub open spec fn handed_out(cmds: Seq<Command>) -> Seq<Option<Command>> {
    cmds.map_values(|c: Command| Some(c))
}

/// The speed limit after the driver performs command `c`, from `before`;
/// `None` where it is unknown: calibration may change it.
pub open spec fn speed_next(c: Command, before: Option<u64>) -> Option<u64> {
    match c {
        Command::SetMaxSpeed(v) => Some(v),
        Command::CalibrateOrigin => None,
        _ => before,
    }
}

/// The speed limit after the driver performs the first `n` of `cmds`,
/// starting from `start`.
pub open spec fn speed_after_prefix(cmds: Seq<Command>, n: nat, start: Option<u64>) -> Option<u64>
    decreases n,
{
    if n == 0 {
        start
    } else {
        speed_next(cmds[n - 1], speed_after_prefix(cmds, (n - 1) as nat, start))
    }
}

/// The speed limit after the driver performs all of `cmds`, starting from
/// `start`.
pub open spec fn speed_after(cmds: Seq<Command>, start: Option<u64>) -> Option<u64> {
    speed_after_prefix(cmds, cmds.len(), start)
}

/// Every cancel procedure halts the axis, then at once waits until the axis
/// is idle, and sets nothing in motion.
pub proof fn lemma_cancel_ends_idle(t: Task, issued: nat, speed: u64)
    ensures
        ({
            let c = cancel_program(t, issued, speed);
            &&& c.len() >= 2
            &&& c[0] == Command::Stop
            &&& c[1] == Command::Wait(Event::Idle)
            &&& forall|k: int| 0 <= k < c.len() ==> !(#[trigger] c[k]).is_motion()
        }),
{
}

/// Every task has a run procedure that starts with a motion command and
/// ends by waiting until idle, and a cancel procedure that starts with a
/// stop.
pub proof fn lemma_every_task_has_procedures(t: Task, issued: nat, speed: u64)
    ensures
        run_program(t, speed).len() >= 2,
        run_program(t, speed)[0].is_motion(),
        run_program(t, speed).last() == Command::Wait(Event::Idle),
        cancel_program(t, issued, speed)[0] == Command::Stop,
{
}

/// Cancelling a task at any point of its run procedure leaves the speed
/// limit that the procedure read when it started.
pub proof fn lemma_cancel_keeps_speed(t: Task, issued: nat, speed: u64)
    requires
        issued <= run_program(t, speed).len(),
    ensures
        speed_after(
            run_program(t, speed).take(issued as int) + cancel_program(t, issued, speed),
            Some(speed),
        ) == Some(speed),
{
    reveal_with_fuel(speed_after_prefix, 8);
}

/// A submission that preempts a running task: the runner hands out the
/// whole cancel procedure of that task, then the whole run procedure of the
/// new one, then nothing, and the slot is empty. No command of the new task
/// comes before the cancellation is complete, and none of the old run
/// procedure comes after the submission.
#[verifier::rlimit(100)]
pub proof fn lemma_preempt_hands_over(s: RunnerState, t: Task, speed: u64)
    requires
        s.wf(),
        s.current is Some,
        s.current->0.phase == Phase::Running,
    ensures
        ({
            let a = s.current->0;
            let (s2, preempt) = after_submit(s, t);
            let c = cancel_program(a.task, a.issued as nat, a.saved_speed);
            let r = run_program(t, speed);
            let (s3, out) = drive(s2, c.len() + r.len() + 1, speed);
            &&& preempt
            &&& s2.wf()
            &&& out == handed_out(c) + handed_out(r) + seq![None]
            &&& s3.is_idle()
        }),
{
    reveal_with_fuel(drive, 9);
    let a = s.current->0;
    let (s2, _) = after_submit(s, t);
    let c = cancel_program(a.task, a.issued as nat, a.saved_speed);
    let r = run_program(t, speed);
    let (s3, out) = drive(s2, c.len() + r.len() + 1, speed);
    assert(out =~= handed_out(c) + handed_out(r) + seq![None]);
}

/// Submitting a task to an empty slot and driving it to the end hands out
/// its whole run procedure and leaves the slot empty, so a second submission
/// of the same task runs it again in full.
pub proof fn lemma_resubmit_runs_again(s: RunnerState, t: Task, speed: u64)
    requires
        s.wf(),
        s.is_idle(),
    ensures
        ({
            let r = run_program(t, speed);
            let (first, out1) = drive(after_submit(s, t).0, r.len() + 1, speed);
            let (second, out2) = drive(after_submit(first, t).0, r.len() + 1, speed);
            &&& out1 == handed_out(r) + seq![None]
            &&& first.is_idle()
            &&& out2 == handed_out(r) + seq![None]
            &&& second.is_idle()
        }),
{
    reveal_with_fuel(drive, 6);
    let r = run_program(t, speed);
    let (first, out1) = drive(after_submit(s, t).0, r.len() + 1, speed);
    let (second, out2) = drive(after_submit(first, t).0, r.len() + 1, speed);
    assert(out1 =~= handed_out(r) + seq![None]);
    assert(out2 =~= handed_out(r) + seq![None]);
}

/// A submission during a cancellation interrupts nothing: the rest of the
/// cancel procedure is handed out, then the whole run procedure of the
/// newest submission, which replaces any that was waiting.
#[verifier::rlimit(100)]
pub proof fn lemma_submit_while_cancelling(s: RunnerState, t: Task, speed: u64)
    requires
        s.wf(),
        s.current is Some,
        s.current->0.phase == Phase::Cancelling,
    ensures
        ({
            let a = s.current->0;
            let (s2, preempt) = after_submit(s, t);
            let c = cancel_program(a.task, a.run_issued as nat, a.saved_speed);
            let rest = c.subrange(a.issued as int, c.len() as int);
            let r = run_program(t, speed);
            let (s3, out) = drive(s2, rest.len() + r.len() + 1, speed);
            &&& !preempt
            &&& s2 == RunnerState { current: s.current, pending: Some(t) }
            &&& out == handed_out(rest) + handed_out(r) + seq![None]
            &&& s3.is_idle()
        }),
{
    let a = s.current->0;
    let (s2, _) = after_submit(s, t);
    let c = cancel_program(a.task, a.run_issued as nat, a.saved_speed);
    let rest = c.subrange(a.issued as int, c.len() as int);
    let r = run_program(t, speed);
    let n1 = rest.len();
    let n2 = r.len() + 1;
    lemma_drive_split(s2, n1, n2, speed);
    lemma_drive_rest(s2, speed);
    let (s_done, out1) = drive(s2, n1, speed);
    let (s_new, first) = after_step(s_done, speed);
    let b = s_new.current->0;
    assert(first == Some(r[0]));
    lemma_drive_split(s_new, (r.len() - 1) as nat, 1, speed);
    lemma_drive_rest(s_new, speed);
    let (s_ran, out2) = drive(s_new, (r.len() - 1) as nat, speed);
    assert(program_of(b) == r);
    let (s_end, last) = after_step(s_ran, speed);
    reveal_with_fuel(drive, 2);
    assert(drive(s_ran, 1, speed) == (s_end, seq![last]));
    assert(drive(s_done, n2, speed).1 =~= handed_out(r) + seq![None]) by {
        assert(handed_out(r) =~= seq![Some(r[0])] + handed_out(r.subrange(1, r.len() as int)));
    }
    let (s3, out) = drive(s2, rest.len() + r.len() + 1, speed);
    assert(out =~= handed_out(rest) + handed_out(r) + seq![None]);
}

/// Driving `n` then `m` steps is driving `n + m` steps.
pub proof fn lemma_drive_split(s: RunnerState, n: nat, m: nat, speed: u64)
    ensures
        ({
            let (s1, out1) = drive(s, n, speed);
            let (s2, out2) = drive(s1, m, speed);
            drive(s, n + m, speed) == (s2, out1 + out2)
        }),
    decreases n,
{
    if n > 0 {
        let (s1, c) = after_step(s, speed);
        lemma_drive_split(s1, (n - 1) as nat, m, speed);
        let (t1, o1) = drive(s1, (n - 1) as nat, speed);
        let (t2, o2) = drive(t1, m, speed);
        assert(seq![c] + (o1 + o2) =~= (seq![c] + o1) + o2);
        assert((n + m - 1) as nat == (n - 1) as nat + m);
    }
}

/// Once a procedure has read its speed limit, driving it to its end hands
/// out the rest of it, in order, and nothing else.
pub proof fn lemma_drive_rest(s: RunnerState, speed: u64)
    requires
        s.wf(),
        s.current is Some,
        s.current->0.phase == Phase::Cancelling || s.current->0.issued >= 1,
    ensures
        ({
            let a = s.current->0;
            let p = program_of(a);
            drive(s, (p.len() - a.issued) as nat, speed) == (
                RunnerState {
                    current: Some(Active { issued: p.len() as usize, ..a }),
                    pending: s.pending,
                },
                handed_out(p.subrange(a.issued as int, p.len() as int)),
            )
        }),
    decreases program_of(s.current->0).len() - s.current->0.issued,
{
    let a = s.current->0;
    let p = program_of(a);
    if a.issued == p.len() {
        assert(handed_out(p.subrange(a.issued as int, p.len() as int)) =~= Seq::empty());
        assert(Active { issued: p.len() as usize, ..a } == a);
    } else {
        let (s1, c) = after_step(s, speed);
        lemma_drive_rest(s1, speed);
        assert(handed_out(p.subrange(a.issued as int, p.len() as int)) =~= seq![c] + handed_out(
            p.subrange(a.issued + 1, p.len() as int),
        ));
    }
}

/// What the runner can be asked: a submission, a stop request, or the
/// driver's request for its next command with the speed limit it reads.
pub enum Input {
    Submit(Task),
    Stop,
    Step(u64),
}

/// The state after an input, and the command it hands out.
pub open spec fn after_input(s: RunnerState, i: Input) -> (RunnerState, Option<Command>) {
    match i {
        Input::Submit(t) => (after_submit(s, t).0, None),
        Input::Stop => (after_stop(s).0, None),
        Input::Step(speed) => after_step(s, speed),
    }
}

/// Each command handed out over a sequence of inputs, with the procedure
/// that handed it out as it stands just after.
pub open spec fn handed_out_log(s: RunnerState, inputs: Seq<Input>) -> Seq<(Active, Command)>
    decreases inputs.len(),
{
    if inputs.len() == 0 {
        Seq::empty()
    } else {
        let (s1, c) = after_input(s, inputs[0]);
        let rest = handed_out_log(s1, inputs.drop_first());
        match c {
            Some(cmd) => seq![(s1.current->0, cmd)] + rest,
            None => rest,
        }
    }
}

/// A procedure that has handed out all its commands.
pub open spec fn finished(e: Active) -> bool {
    e.issued == program_of(e).len()
}

/// A command handed out by procedure `e` is the next one of its program.
pub open spec fn in_order(e: Active, c: Command) -> bool {
    1 <= e.issued <= program_of(e).len() && c == program_of(e)[e.issued - 1]
}

/// The procedure `e2` may hand out a command right after `e1` did: it is
/// the same procedure going on; or it starts after `e1` had finished; or it
/// is the cancellation of the run procedure that `e1` was, cut short.
pub open spec fn may_follow(e1: Active, e2: Active) -> bool {
    if e2.issued > 1 {
        &&& e2.task == e1.task
        &&& e2.phase == e1.phase
        &&& e2.run_issued == e1.run_issued
        &&& e2.saved_speed == e1.saved_speed
        &&& e2.issued == e1.issued + 1
    } else {
        ||| finished(e1)
        ||| {
            &&& e2.phase == Phase::Cancelling
            &&& e1.phase == Phase::Running
            &&& e2.task == e1.task
            &&& e2.saved_speed == e1.saved_speed
            &&& e2.run_issued == e1.issued
        }
    }
}

/// How the runner's state stands to the last command handed out.
pub open spec fn agrees_with_last(s: RunnerState, last: Option<Active>) -> bool {
    let last_finished = last is None || finished(last->0);
    &&& s.wf()
    &&& match s.current {
        None => last_finished,
        Some(a) => {
            &&& a.phase == Phase::Running ==> a.run_issued == 0
            &&& if a.issued >= 1 {
                last == Some(a)
            } else if a.phase == Phase::Cancelling && a.run_issued >= 1 {
                last == Some(
                    Active { phase: Phase::Running, issued: a.run_issued, run_issued: 0, ..a },
                )
            } else {
                last_finished
            }
        },
    }
}

proof fn lemma_one_input(s: RunnerState, last: Option<Active>, i: Input)
    requires
        agrees_with_last(s, last),
    ensures
        ({
            let (s1, c) = after_input(s, i);
            match c {
                None => agrees_with_last(s1, last),
                Some(cmd) => {
                    &&& s1.current is Some
                    &&& in_order(s1.current->0, cmd)
                    &&& last is Some ==> may_follow(last->0, s1.current->0)
                    &&& agrees_with_last(s1, s1.current)
                },
            }
        }),
{
}

proof fn lemma_log_from(s: RunnerState, last: Option<Active>, inputs: Seq<Input>)
    requires
        agrees_with_last(s, last),
    ensures
        ({
            let log = handed_out_log(s, inputs);
            &&& forall|k: int| 0 <= k < log.len() ==> in_order(#[trigger] log[k].0, log[k].1)
            &&& forall|k: int|
                0 < k < log.len() ==> may_follow(log[k - 1].0, #[trigger] log[k].0)
            &&& (last is Some && log.len() > 0) ==> may_follow(last->0, log[0].0)
        }),
    decreases inputs.len(),
{
    if inputs.len() > 0 {
        lemma_one_input(s, last, inputs[0]);
        let (s1, c) = after_input(s, inputs[0]);
        let next_last = if c is Some { s1.current } else { last };
        lemma_log_from(s1, next_last, inputs.drop_first());
        let rest = handed_out_log(s1, inputs.drop_first());
        let log = handed_out_log(s, inputs);
        if c is Some {
            assert forall|k: int| 0 < k < log.len() implies may_follow(
                log[k - 1].0,
                #[trigger] log[k].0,
            ) by {
                if k > 1 {
                    assert(log[k - 1] == rest[k - 2]);
                    assert(log[k] == rest[k - 1]);
                }
            }
            assert forall|k: int| 0 <= k < log.len() implies in_order(
                #[trigger] log[k].0,
                log[k].1,
            ) by {
                if k > 0 {
                    assert(log[k] == rest[k - 1]);
                }
            }
        }
    }
}

/// Commands of two procedures never interleave. From an empty slot, over
/// any sequence of submissions, stop requests and steps, every command
/// handed out is the next one of its procedure's program, and each command
/// comes from the procedure of the one before it going on, from a procedure
/// that starts once that one had finished, or from the cancellation of the
/// run procedure that it cut short. So a task's run procedure starts only
/// after the previous procedure, run or cancel, has handed out its last
/// command.
pub proof fn lemma_never_interleaved(inputs: Seq<Input>)
    ensures
        ({
            let log = handed_out_log(RunnerState { current: None, pending: None }, inputs);
            &&& forall|k: int| 0 <= k < log.len() ==> in_order(#[trigger] log[k].0, log[k].1)
            &&& forall|k: int|
                0 < k < log.len() ==> may_follow(log[k - 1].0, #[trigger] log[k].0)
        }),
{
    lemma_log_from(RunnerState { current: None, pending: None }, None, inputs);
}

} // verus!
