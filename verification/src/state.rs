//! Job states, effect modes and the state machine between the states.
use vstd::prelude::*;

verus! {

/// The state of a job.
#[derive(Clone, Copy, PartialEq, Eq, Structural, Hash, Debug)]
pub enum JobState {
    Pending,
    Leased,
    RetryWait,
    Uncertain,
    Succeeded,
    Dead,
    Cancelled,
}

/// What an expired lease says about the effect of a job.
#[derive(Clone, Copy, PartialEq, Eq, Structural, Hash, Debug)]
pub enum EffectMode {
    /// The effect may have happened and has to be reconciled by hand.
    RequiresReconciliation,
    /// The effect may be repeated safely.
    ExplicitlyIdempotent,
}

/// How an uncertain job is resolved.
#[derive(Clone, Copy, PartialEq, Eq, Structural, Hash, Debug)]
pub enum Resolution {
    Retry,
    MarkSucceeded,
    MarkDead,
}

/// The stored code of a state.
pub open spec fn state_code(s: JobState) -> i64 {
    match s {
        JobState::Pending => 0,
        JobState::Leased => 1,
        JobState::RetryWait => 2,
        JobState::Uncertain => 3,
        JobState::Succeeded => 4,
        JobState::Dead => 5,
        JobState::Cancelled => 6,
    }
}

/// The state that a stored code stands for.
pub open spec fn state_of_code(code: i64) -> Option<JobState> {
    if code == 0 {
        Some(JobState::Pending)
    } else if code == 1 {
        Some(JobState::Leased)
    } else if code == 2 {
        Some(JobState::RetryWait)
    } else if code == 3 {
        Some(JobState::Uncertain)
    } else if code == 4 {
        Some(JobState::Succeeded)
    } else if code == 5 {
        Some(JobState::Dead)
    } else if code == 6 {
        Some(JobState::Cancelled)
    } else {
        None
    }
}

/// The stored code of an effect mode.
pub open spec fn effect_code(m: EffectMode) -> i64 {
    match m {
        EffectMode::RequiresReconciliation => 0,
        EffectMode::ExplicitlyIdempotent => 1,
    }
}

/// The effect mode that a stored code stands for.
pub open spec fn effect_of_code(code: i64) -> Option<EffectMode> {
    if code == 0 {
        Some(EffectMode::RequiresReconciliation)
    } else if code == 1 {
        Some(EffectMode::ExplicitlyIdempotent)
    } else {
        None
    }
}

/// A job in such a state is finished for good.
pub open spec fn terminal(s: JobState) -> bool {
    s is Succeeded || s is Dead || s is Cancelled
}

/// The steps of the state machine.
pub open spec fn can_step(from: JobState, to: JobState) -> bool {
    match from {
        JobState::Pending => to is Leased || to is Cancelled,
        JobState::Leased => to is Succeeded || to is RetryWait || to is Dead || to is Cancelled
            || to is Uncertain || to is Pending,
        JobState::RetryWait => to is Leased,
        JobState::Uncertain => to is Pending || to is Succeeded || to is Dead,
        JobState::Succeeded => false,
        JobState::Dead => false,
        JobState::Cancelled => false,
    }
}

/// Every state and every effect mode is read back from its stored code, and
/// from no other code.
pub proof fn law_codes_round_trip(s: JobState, m: EffectMode, code: i64)
    ensures
        state_of_code(state_code(s)) == Some(s),
        effect_of_code(effect_code(m)) == Some(m),
        state_of_code(code) == Some(s) ==> code == state_code(s),
        effect_of_code(code) == Some(m) ==> code == effect_code(m),
{
}

/// A terminal state has no step out of it, and every other state has one.
pub proof fn law_terminal_states_are_final(from: JobState)
    ensures
        terminal(from) <==> forall|to: JobState| !#[trigger] can_step(from, to),
{
    if !terminal(from) {
        assert(can_step(from, JobState::Leased) || can_step(from, JobState::Pending));
    }
}

impl JobState {
    /// The stored code of this state.
    pub fn encode(self) -> (code: i64)
        ensures
            code == state_code(self),
    {
        match self {
            JobState::Pending => 0,
            JobState::Leased => 1,
            JobState::RetryWait => 2,
            JobState::Uncertain => 3,
            JobState::Succeeded => 4,
            JobState::Dead => 5,
            JobState::Cancelled => 6,
        }
    }

    /// The state with this stored code.
    pub fn decode(code: i64) -> (s: Option<JobState>)
        ensures
            s == state_of_code(code),
    {
        if code == 0 {
            Some(JobState::Pending)
        } else if code == 1 {
            Some(JobState::Leased)
        } else if code == 2 {
            Some(JobState::RetryWait)
        } else if code == 3 {
            Some(JobState::Uncertain)
        } else if code == 4 {
            Some(JobState::Succeeded)
        } else if code == 5 {
            Some(JobState::Dead)
        } else if code == 6 {
            Some(JobState::Cancelled)
        } else {
            None
        }
    }

    /// Whether a job in this state is finished for good.
    pub fn is_terminal(self) -> (r: bool)
        ensures
            r == terminal(self),
    {
        match self {
            JobState::Succeeded => true,
            JobState::Dead => true,
            JobState::Cancelled => true,
            _ => false,
        }
    }

    /// Whether the state machine has a step from this state to `to`.
    pub fn can_transition_to(self, to: JobState) -> (r: bool)
        ensures
            r == can_step(self, to),
    {
        match self {
            JobState::Pending => to == JobState::Leased || to == JobState::Cancelled,
            JobState::Leased => to != JobState::Leased,
            JobState::RetryWait => to == JobState::Leased,
            JobState::Uncertain => to == JobState::Pending || to == JobState::Succeeded || to
                == JobState::Dead,
            _ => false,
        }
    }
}

impl EffectMode {
    /// The stored code of this effect mode.
    pub fn encode(self) -> (code: i64)
        ensures
            code == effect_code(self),
    {
        match self {
            EffectMode::RequiresReconciliation => 0,
            EffectMode::ExplicitlyIdempotent => 1,
        }
    }

    /// The effect mode with this stored code.
    pub fn decode(code: i64) -> (m: Option<EffectMode>)
        ensures
            m == effect_of_code(code),
    {
        if code == 0 {
            Some(EffectMode::RequiresReconciliation)
        } else if code == 1 {
            Some(EffectMode::ExplicitlyIdempotent)
        } else {
            None
        }
    }
}

} // verus!
