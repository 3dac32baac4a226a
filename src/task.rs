use vstd::prelude::*;

verus! {

/// Relative jog distance of the up task, in micrometres.
pub const JOG_UP_UM: i64 = 40000;

/// Relative jog distance of the down task, in micrometres.
pub const JOG_DOWN_UM: i64 = -40000;

/// An axis state that the driver can be waited on.
#[derive(Debug, Clone, Copy, PartialEq, Eq, Structural)]
pub enum Event {
    /// The axis has stopped issuing motion and has settled.
    Idle,
}

/// One instruction to the axis driver.
#[derive(Debug, Clone, Copy, PartialEq, Eq, Structural)]
pub enum Command {
    /// Absolute move to a position, in micrometres.
    SetTarget(i64),
    /// Relative move by an offset, in micrometres.
    SetTargetRelative(i64),
    /// Set the speed limit of the axis.
    SetMaxSpeed(u64),
    /// Halt motion at once, without waiting for the axis to settle.
    Stop,
    /// Suspend until the driver reports the event.
    Wait(Event),
    /// Run the homing routine, which may change the speed limit.
    CalibrateOrigin,
}

impl Command {
    /// Commands that set the axis in motion.
    pub open spec fn is_motion(self) -> bool {
        match self {
            Command::SetTarget(_) | Command::SetTargetRelative(_) | Command::CalibrateOrigin => true,
            _ => false,
        }
    }

    /// Commands that the driver completes asynchronously.
    pub open spec fn is_suspending(self) -> bool {
        match self {
            Command::Wait(_) | Command::CalibrateOrigin => true,
            _ => false,
        }
    }

    /// Whether the driver has to await this command before the next one.
    pub fn suspends(&self) -> (r: bool)
        ensures
            r == self.is_suspending(),
    {
        match self {
            Command::Wait(_) | Command::CalibrateOrigin => true,
            _ => false,
        }
    }
}

/// A motion intent on the axis.
#[derive(Debug, Clone, Copy, PartialEq, Eq, Structural)]
pub enum Task {
    /// Jog up by a fixed offset.
    MoveUp,
    /// Jog down by the same fixed offset.
    MoveDown,
    /// Home the axis, then move to the zero position.
    MoveZero,
}

/// The run procedure of a task. `speed` is the speed limit read when the
/// procedure started; homing restores it after calibration.
pub open spec fn run_program(t: Task, speed: u64) -> Seq<Command> {
    match t {
        Task::MoveUp => seq![Command::SetTargetRelative(JOG_UP_UM), Command::Wait(Event::Idle)],
        Task::MoveDown => seq![Command::SetTargetRelative(JOG_DOWN_UM), Command::Wait(Event::Idle)],
        Task::MoveZero => seq![
            Command::CalibrateOrigin,
            Command::SetMaxSpeed(speed),
            Command::SetTarget(0),
            Command::Wait(Event::Idle),
        ],
    }
}

/// Whether a run procedure that has handed out `issued` commands has read
/// the speed limit it must leave behind: homing has begun.
pub open spec fn speed_saved(t: Task, issued: nat) -> bool {
    t == Task::MoveZero && issued >= 1
}

/// The cancel procedure of a task whose run procedure had handed out
/// `issued` commands, with `speed` read when that run started: stop, wait
/// until idle, then set back the speed limit if the run had read it.
pub open spec fn cancel_program(t: Task, issued: nat, speed: u64) -> Seq<Command> {
    if speed_saved(t, issued) {
        seq![Command::Stop, Command::Wait(Event::Idle), Command::SetMaxSpeed(speed)]
    } else {
        seq![Command::Stop, Command::Wait(Event::Idle)]
    }
}

impl Task {
    /// The commands of the run procedure, in order.
    pub fn run(&self, speed: u64) -> (r: Vec<Command>)
        ensures
            r@ == run_program(*self, speed),
    {
        let r = match self {
            Task::MoveUp => vec![Command::SetTargetRelative(JOG_UP_UM), Command::Wait(Event::Idle)],
            Task::MoveDown => vec![
                Command::SetTargetRelative(JOG_DOWN_UM),
                Command::Wait(Event::Idle),
            ],
            Task::MoveZero => vec![
                Command::CalibrateOrigin,
                Command::SetMaxSpeed(speed),
                Command::SetTarget(0),
                Command::Wait(Event::Idle),
            ],
        };
        assert(r@ =~= run_program(*self, speed));
        r
    }

    /// The commands of the cancel procedure, for a run procedure that had
    /// handed out `issued` commands after reading the speed limit `speed`.
    pub fn cancel(&self, issued: usize, speed: u64) -> (r: Vec<Command>)
        ensures
            r@ == cancel_program(*self, issued as nat, speed),
    {
        let r = match self {
            Task::MoveZero if issued >= 1 => vec![
                Command::Stop,
                Command::Wait(Event::Idle),
                Command::SetMaxSpeed(speed),
            ],
            _ => vec![Command::Stop, Command::Wait(Event::Idle)],
        };
        assert(r@ =~= cancel_program(*self, issued as nat, speed));
        r
    }
}

} // verus!
