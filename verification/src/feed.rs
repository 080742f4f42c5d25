//! The end of a window in a process of its own: its input is closed, and it is
//! given some time to leave before it is stopped.
use vstd::prelude::*;

verus! {

/// How often the process is looked at before it is stopped.
pub const EXIT_POLLS: u32 = 30;

/// What a look at the process shows.
#[derive(Debug, Clone, Copy, PartialEq, Eq, Structural)]
pub enum ChildState {
    /// It has left.
    Exited,
    /// It runs.
    Running,
    /// It cannot be told.
    Unknown,
}

/// What follows.
#[derive(Debug, Clone, Copy, PartialEq, Eq, Structural)]
pub enum CloseStep {
    /// Nothing.
    Done,
    /// Another look, after so many milliseconds.
    Sleep(u64),
    /// The process is stopped.
    Kill,
}

/// What follows look number `polls`, counted from one. After the last look the
/// process still gets its pause before it is stopped.
pub open spec fn close_step(polls: nat, state: ChildState) -> CloseStep {
    if polls > EXIT_POLLS {
        CloseStep::Kill
    } else {
        match state {
            ChildState::Exited => CloseStep::Done,
            ChildState::Running => CloseStep::Sleep(10),
            ChildState::Unknown => CloseStep::Kill,
        }
    }
}

/// Decides what follows look number `polls`.
pub fn next_close_step(polls: u32, state: ChildState) -> (r: CloseStep)
    ensures
        r == close_step(polls as nat, state),
{
    if polls > EXIT_POLLS {
        CloseStep::Kill
    } else {
        match state {
            ChildState::Exited => CloseStep::Done,
            ChildState::Running => CloseStep::Sleep(10),
            ChildState::Unknown => CloseStep::Kill,
        }
    }
}

/// A window that is closed is left alone once it is gone, looked at every ten
/// milliseconds while it runs, and stopped after thirty looks.
pub proof fn law_windows_get_time_to_leave(polls: nat, state: ChildState)
    ensures
        polls <= 30 && state == ChildState::Exited ==> close_step(polls, state) == CloseStep::Done,
        polls <= 30 && state == ChildState::Running ==> close_step(polls, state)
            == CloseStep::Sleep(10),
        polls > 30 ==> close_step(polls, state) == CloseStep::Kill,
        state == ChildState::Unknown ==> close_step(polls, state) == CloseStep::Kill,
{
}

}
