//! The lifecycle state machine of a system component: which trigger moves
//! which state where, and nothing else.

use vstd::prelude::*;

verus! {

/// The state of a component within the system.
#[derive(Clone, Copy, Debug, PartialEq, Eq, Structural, Hash)]
pub enum ComponentState {
    /// Instantiated, not yet ready to fulfil its specification.
    PreInitialized,
    /// Able to be started.
    Ready,
    /// Executing its actions on `start`.
    Starting,
    /// Operating normally.
    Running,
    /// Executing its actions on `stop`.
    Stopping,
    /// Stopped successfully.
    Stopped,
    /// Started again after its initial start.
    Resuming,
    /// Executing its actions on `reset`.
    Resetting,
    /// Executing its actions on `dispose`.
    Disposing,
    /// Shut down, all resources released.
    Disposed,
    /// Executing its actions on `degrade`.
    Degrading,
    /// Degraded; may not meet its full specification.
    Degraded,
    /// Executing its actions on `fault`.
    Faulting,
    /// Shut down because of a detected fault.
    Faulted,
}

/// A trigger condition for a state transition.
#[derive(Clone, Copy, Debug, PartialEq, Eq, Structural, Hash)]
pub enum ComponentTrigger {
    Initialize,
    Start,
    StartCompleted,
    Stop,
    StopCompleted,
    Resume,
    ResumeCompleted,
    Reset,
    ResetCompleted,
    Dispose,
    DisposeCompleted,
    Degrade,
    DegradeCompleted,
    Fault,
    FaultCompleted,
}

/// The state a trigger moves a state to, if the transition is allowed.
pub open spec fn next_state(s: ComponentState, t: ComponentTrigger) -> Option<ComponentState> {
    match (s, t) {
        (ComponentState::PreInitialized, ComponentTrigger::Initialize) => Some(ComponentState::Ready),
        (ComponentState::Ready, ComponentTrigger::Reset) => Some(ComponentState::Resetting),
        (ComponentState::Ready, ComponentTrigger::Start) => Some(ComponentState::Starting),
        (ComponentState::Ready, ComponentTrigger::Dispose) => Some(ComponentState::Disposing),
        (ComponentState::Resetting, ComponentTrigger::ResetCompleted) => Some(ComponentState::Ready),
        (ComponentState::Starting, ComponentTrigger::StartCompleted) => Some(ComponentState::Running),
        (ComponentState::Starting, ComponentTrigger::Stop) => Some(ComponentState::Stopping),
        (ComponentState::Starting, ComponentTrigger::Fault) => Some(ComponentState::Faulting),
        (ComponentState::Running, ComponentTrigger::Stop) => Some(ComponentState::Stopping),
        (ComponentState::Running, ComponentTrigger::Degrade) => Some(ComponentState::Degrading),
        (ComponentState::Running, ComponentTrigger::Fault) => Some(ComponentState::Faulting),
        (ComponentState::Resuming, ComponentTrigger::Stop) => Some(ComponentState::Stopping),
        (ComponentState::Resuming, ComponentTrigger::ResumeCompleted) => Some(ComponentState::Running),
        (ComponentState::Resuming, ComponentTrigger::Fault) => Some(ComponentState::Faulting),
        (ComponentState::Stopping, ComponentTrigger::StopCompleted) => Some(ComponentState::Stopped),
        (ComponentState::Stopping, ComponentTrigger::Fault) => Some(ComponentState::Faulting),
        (ComponentState::Stopped, ComponentTrigger::Reset) => Some(ComponentState::Resetting),
        (ComponentState::Stopped, ComponentTrigger::Resume) => Some(ComponentState::Resuming),
        (ComponentState::Stopped, ComponentTrigger::Dispose) => Some(ComponentState::Disposing),
        (ComponentState::Stopped, ComponentTrigger::Fault) => Some(ComponentState::Faulting),
        (ComponentState::Degrading, ComponentTrigger::DegradeCompleted) => Some(ComponentState::Degraded),
        (ComponentState::Degraded, ComponentTrigger::Resume) => Some(ComponentState::Resuming),
        (ComponentState::Degraded, ComponentTrigger::Stop) => Some(ComponentState::Stopping),
        (ComponentState::Degraded, ComponentTrigger::Fault) => Some(ComponentState::Faulting),
        (ComponentState::Disposing, ComponentTrigger::DisposeCompleted) => Some(ComponentState::Disposed),
        (ComponentState::Faulting, ComponentTrigger::FaultCompleted) => Some(ComponentState::Faulted),
        _ => None,
    }
}

/// The state after a run of triggers, if every one of them is allowed.
pub open spec fn run_triggers(s: ComponentState, ts: Seq<ComponentTrigger>) -> Option<ComponentState>
    decreases ts.len(),
{
    if ts.len() == 0 {
        Some(s)
    } else {
        match next_state(s, ts[0]) {
            Some(n) => run_triggers(n, ts.drop_first()),
            None => None,
        }
    }
}

impl ComponentState {
    /// The state a trigger leads to from this one, if allowed.
    pub fn next(&self, trigger: ComponentTrigger) -> (r: Option<ComponentState>)
        ensures
            r == next_state(*self, trigger),
    {
        match (*self, trigger) {
            (ComponentState::PreInitialized, ComponentTrigger::Initialize) => Some(ComponentState::Ready),
            (ComponentState::Ready, ComponentTrigger::Reset) => Some(ComponentState::Resetting),
            (ComponentState::Ready, ComponentTrigger::Start) => Some(ComponentState::Starting),
            (ComponentState::Ready, ComponentTrigger::Dispose) => Some(ComponentState::Disposing),
            (ComponentState::Resetting, ComponentTrigger::ResetCompleted) => Some(ComponentState::Ready),
            (ComponentState::Starting, ComponentTrigger::StartCompleted) => Some(ComponentState::Running),
            (ComponentState::Starting, ComponentTrigger::Stop) => Some(ComponentState::Stopping),
            (ComponentState::Starting, ComponentTrigger::Fault) => Some(ComponentState::Faulting),
            (ComponentState::Running, ComponentTrigger::Stop) => Some(ComponentState::Stopping),
            (ComponentState::Running, ComponentTrigger::Degrade) => Some(ComponentState::Degrading),
            (ComponentState::Running, ComponentTrigger::Fault) => Some(ComponentState::Faulting),
            (ComponentState::Resuming, ComponentTrigger::Stop) => Some(ComponentState::Stopping),
            (ComponentState::Resuming, ComponentTrigger::ResumeCompleted) => Some(ComponentState::Running),
            (ComponentState::Resuming, ComponentTrigger::Fault) => Some(ComponentState::Faulting),
            (ComponentState::Stopping, ComponentTrigger::StopCompleted) => Some(ComponentState::Stopped),
            (ComponentState::Stopping, ComponentTrigger::Fault) => Some(ComponentState::Faulting),
            (ComponentState::Stopped, ComponentTrigger::Reset) => Some(ComponentState::Resetting),
            (ComponentState::Stopped, ComponentTrigger::Resume) => Some(ComponentState::Resuming),
            (ComponentState::Stopped, ComponentTrigger::Dispose) => Some(ComponentState::Disposing),
            (ComponentState::Stopped, ComponentTrigger::Fault) => Some(ComponentState::Faulting),
            (ComponentState::Degrading, ComponentTrigger::DegradeCompleted) => Some(ComponentState::Degraded),
            (ComponentState::Degraded, ComponentTrigger::Resume) => Some(ComponentState::Resuming),
            (ComponentState::Degraded, ComponentTrigger::Stop) => Some(ComponentState::Stopping),
            (ComponentState::Degraded, ComponentTrigger::Fault) => Some(ComponentState::Faulting),
            (ComponentState::Disposing, ComponentTrigger::DisposeCompleted) => Some(ComponentState::Disposed),
            (ComponentState::Faulting, ComponentTrigger::FaultCompleted) => Some(ComponentState::Faulted),
            _ => None,
        }
    }

    /// Moves the state machine with `trigger` and returns the new state. An
    /// invalid trigger for the current state panics, so it is left out.
    pub fn transition(&mut self, trigger: ComponentTrigger) -> (r: ComponentState)
        requires
            next_state(*old(self), trigger) is Some,
        ensures
            Some(r) == next_state(*old(self), trigger),
            *final(self) == r,
    {
        match self.next(trigger) {
            Some(n) => {
                *self = n;
                n
            },
            None => {
                assert(false);
                *self
            },
        }
    }

    /// The state's name (what `Display` writes).
    pub fn to_str(&self) -> (r: &'static str)
        ensures
            r@ == self.spec_name(),
    {
        match self {
            ComponentState::PreInitialized => "PreInitialized",
            ComponentState::Ready => "Ready",
            ComponentState::Starting => "Starting",
            ComponentState::Running => "Running",
            ComponentState::Stopping => "Stopping",
            ComponentState::Stopped => "Stopped",
            ComponentState::Resuming => "Resuming",
            ComponentState::Resetting => "Resetting",
            ComponentState::Disposing => "Disposing",
            ComponentState::Disposed => "Disposed",
            ComponentState::Degrading => "Degrading",
            ComponentState::Degraded => "Degraded",
            ComponentState::Faulting => "Faulting",
            ComponentState::Faulted => "Faulted",
        }
    }

    pub open spec fn spec_name(self) -> Seq<char> {
        match self {
            ComponentState::PreInitialized => "PreInitialized"@,
            ComponentState::Ready => "Ready"@,
            ComponentState::Starting => "Starting"@,
            ComponentState::Running => "Running"@,
            ComponentState::Stopping => "Stopping"@,
            ComponentState::Stopped => "Stopped"@,
            ComponentState::Resuming => "Resuming"@,
            ComponentState::Resetting => "Resetting"@,
            ComponentState::Disposing => "Disposing"@,
            ComponentState::Disposed => "Disposed"@,
            ComponentState::Degrading => "Degrading"@,
            ComponentState::Degraded => "Degraded"@,
            ComponentState::Faulting => "Faulting"@,
            ComponentState::Faulted => "Faulted"@,
        }
    }
}

impl Default for ComponentState {
    /// A freshly instantiated component is pre-initialized.
    fn default() -> (r: ComponentState)
        ensures
            r == ComponentState::PreInitialized,
    {
        ComponentState::PreInitialized
    }
}

/// Whether a state is one a component is in while carrying out an action.
pub open spec fn is_transitional(s: ComponentState) -> bool {
    match s {
        ComponentState::Starting | ComponentState::Stopping | ComponentState::Resuming
        | ComponentState::Resetting | ComponentState::Disposing | ComponentState::Degrading
        | ComponentState::Faulting => true,
        _ => false,
    }
}

/// Law: disposed and faulted components are final; no trigger moves them.
pub proof fn law_terminal_states(t: ComponentTrigger)
    ensures
        next_state(ComponentState::Disposed, t) is None,
        next_state(ComponentState::Faulted, t) is None,
{
}

/// Law: a component in the middle of an action leaves it only by completing
/// it, by stopping, or by faulting; and every transitional state can complete.
pub proof fn law_transitional_states(s: ComponentState, t: ComponentTrigger)
    requires
        is_transitional(s),
        next_state(s, t) is Some,
    ensures
        match t {
            ComponentTrigger::StartCompleted | ComponentTrigger::StopCompleted
            | ComponentTrigger::ResumeCompleted | ComponentTrigger::ResetCompleted
            | ComponentTrigger::DisposeCompleted | ComponentTrigger::DegradeCompleted
            | ComponentTrigger::FaultCompleted | ComponentTrigger::Stop | ComponentTrigger::Fault => true,
            _ => false,
        },
        exists|c: ComponentTrigger| #[trigger] next_state(s, c) is Some && !is_transitional(next_state(s, c)->Some_0),
{
    match s {
        ComponentState::Starting => assert(next_state(s, ComponentTrigger::StartCompleted) is Some),
        ComponentState::Stopping => assert(next_state(s, ComponentTrigger::StopCompleted) is Some),
        ComponentState::Resuming => assert(next_state(s, ComponentTrigger::ResumeCompleted) is Some),
        ComponentState::Resetting => assert(next_state(s, ComponentTrigger::ResetCompleted) is Some),
        ComponentState::Disposing => assert(next_state(s, ComponentTrigger::DisposeCompleted) is Some),
        ComponentState::Degrading => assert(next_state(s, ComponentTrigger::DegradeCompleted) is Some),
        _ => assert(next_state(s, ComponentTrigger::FaultCompleted) is Some),
    }
}

/// Law: a fault can be raised from every state in which a component has been
/// started and not yet shut down.
pub proof fn law_fault_from_active(s: ComponentState)
    requires
        s == ComponentState::Starting || s == ComponentState::Running || s == ComponentState::Resuming
            || s == ComponentState::Stopping || s == ComponentState::Stopped || s == ComponentState::Degraded,
    ensures
        next_state(s, ComponentTrigger::Fault) == Some(ComponentState::Faulting),
{
}

/// Law: the lifecycle actions take a component where their names say: from
/// ready, start then complete gives running; stop then complete gives stopped;
/// from stopped, resume then complete runs again; reset then complete makes it
/// ready; dispose then complete disposes it.
pub proof fn law_lifecycle_paths()
    ensures
        run_triggers(ComponentState::PreInitialized, seq![ComponentTrigger::Initialize])
            == Some(ComponentState::Ready),
        run_triggers(ComponentState::Ready, seq![ComponentTrigger::Start, ComponentTrigger::StartCompleted])
            == Some(ComponentState::Running),
        run_triggers(ComponentState::Running, seq![ComponentTrigger::Stop, ComponentTrigger::StopCompleted])
            == Some(ComponentState::Stopped),
        run_triggers(ComponentState::Stopped, seq![ComponentTrigger::Resume, ComponentTrigger::ResumeCompleted])
            == Some(ComponentState::Running),
        run_triggers(ComponentState::Stopped, seq![ComponentTrigger::Reset, ComponentTrigger::ResetCompleted])
            == Some(ComponentState::Ready),
        run_triggers(ComponentState::Stopped, seq![ComponentTrigger::Dispose, ComponentTrigger::DisposeCompleted])
            == Some(ComponentState::Disposed),
        run_triggers(ComponentState::Ready, seq![ComponentTrigger::Dispose, ComponentTrigger::DisposeCompleted])
            == Some(ComponentState::Disposed),
        run_triggers(ComponentState::Ready, seq![ComponentTrigger::Reset, ComponentTrigger::ResetCompleted])
            == Some(ComponentState::Ready),
        run_triggers(ComponentState::Running, seq![ComponentTrigger::Degrade, ComponentTrigger::DegradeCompleted])
            == Some(ComponentState::Degraded),
        run_triggers(ComponentState::Running, seq![ComponentTrigger::Fault, ComponentTrigger::FaultCompleted])
            == Some(ComponentState::Faulted),
{
    reveal_with_fuel(run_triggers, 3);
    assert(seq![ComponentTrigger::Start, ComponentTrigger::StartCompleted].drop_first() =~= seq![ComponentTrigger::StartCompleted]);
    assert(seq![ComponentTrigger::Stop, ComponentTrigger::StopCompleted].drop_first() =~= seq![ComponentTrigger::StopCompleted]);
    assert(seq![ComponentTrigger::Resume, ComponentTrigger::ResumeCompleted].drop_first() =~= seq![ComponentTrigger::ResumeCompleted]);
    assert(seq![ComponentTrigger::Reset, ComponentTrigger::ResetCompleted].drop_first() =~= seq![ComponentTrigger::ResetCompleted]);
    assert(seq![ComponentTrigger::Dispose, ComponentTrigger::DisposeCompleted].drop_first() =~= seq![ComponentTrigger::DisposeCompleted]);
    assert(seq![ComponentTrigger::Degrade, ComponentTrigger::DegradeCompleted].drop_first() =~= seq![ComponentTrigger::DegradeCompleted]);
    assert(seq![ComponentTrigger::Fault, ComponentTrigger::FaultCompleted].drop_first() =~= seq![ComponentTrigger::FaultCompleted]);
    assert(seq![ComponentTrigger::Initialize].drop_first() =~= Seq::<ComponentTrigger>::empty());
    assert(seq![ComponentTrigger::StartCompleted].drop_first() =~= Seq::<ComponentTrigger>::empty());
    assert(seq![ComponentTrigger::StopCompleted].drop_first() =~= Seq::<ComponentTrigger>::empty());
    assert(seq![ComponentTrigger::ResumeCompleted].drop_first() =~= Seq::<ComponentTrigger>::empty());
    assert(seq![ComponentTrigger::ResetCompleted].drop_first() =~= Seq::<ComponentTrigger>::empty());
    assert(seq![ComponentTrigger::DisposeCompleted].drop_first() =~= Seq::<ComponentTrigger>::empty());
    assert(seq![ComponentTrigger::DegradeCompleted].drop_first() =~= Seq::<ComponentTrigger>::empty());
    assert(seq![ComponentTrigger::FaultCompleted].drop_first() =~= Seq::<ComponentTrigger>::empty());
}

/// The state a trigger always leads to: an action's trigger to the state of
/// carrying it out, a completion to the state the action ends in.
pub open spec fn trigger_target(t: ComponentTrigger) -> ComponentState {
    match t {
        ComponentTrigger::Initialize => ComponentState::Ready,
        ComponentTrigger::Start => ComponentState::Starting,
        ComponentTrigger::StartCompleted => ComponentState::Running,
        ComponentTrigger::Stop => ComponentState::Stopping,
        ComponentTrigger::StopCompleted => ComponentState::Stopped,
        ComponentTrigger::Resume => ComponentState::Resuming,
        ComponentTrigger::ResumeCompleted => ComponentState::Running,
        ComponentTrigger::Reset => ComponentState::Resetting,
        ComponentTrigger::ResetCompleted => ComponentState::Ready,
        ComponentTrigger::Dispose => ComponentState::Disposing,
        ComponentTrigger::DisposeCompleted => ComponentState::Disposed,
        ComponentTrigger::Degrade => ComponentState::Degrading,
        ComponentTrigger::DegradeCompleted => ComponentState::Degraded,
        ComponentTrigger::Fault => ComponentState::Faulting,
        ComponentTrigger::FaultCompleted => ComponentState::Faulted,
    }
}

/// The states from which a trigger is accepted, listed trigger by trigger.
pub open spec fn accepted_from(t: ComponentTrigger, s: ComponentState) -> bool {
    match t {
        ComponentTrigger::Initialize => s == ComponentState::PreInitialized,
        ComponentTrigger::Start => s == ComponentState::Ready,
        ComponentTrigger::StartCompleted => s == ComponentState::Starting,
        ComponentTrigger::Stop => s == ComponentState::Starting || s == ComponentState::Running
            || s == ComponentState::Resuming || s == ComponentState::Degraded,
        ComponentTrigger::StopCompleted => s == ComponentState::Stopping,
        ComponentTrigger::Resume => s == ComponentState::Stopped || s == ComponentState::Degraded,
        ComponentTrigger::ResumeCompleted => s == ComponentState::Resuming,
        ComponentTrigger::Reset => s == ComponentState::Ready || s == ComponentState::Stopped,
        ComponentTrigger::ResetCompleted => s == ComponentState::Resetting,
        ComponentTrigger::Dispose => s == ComponentState::Ready || s == ComponentState::Stopped,
        ComponentTrigger::DisposeCompleted => s == ComponentState::Disposing,
        ComponentTrigger::Degrade => s == ComponentState::Running,
        ComponentTrigger::DegradeCompleted => s == ComponentState::Degrading,
        ComponentTrigger::Fault => s == ComponentState::Starting || s == ComponentState::Running
            || s == ComponentState::Resuming || s == ComponentState::Stopping || s == ComponentState::Stopped
            || s == ComponentState::Degraded,
        ComponentTrigger::FaultCompleted => s == ComponentState::Faulting,
    }
}

/// Law: every trigger leads to one fixed state wherever it is accepted, and
/// it is accepted from exactly the states it is listed for (e.g. `Dispose`
/// from `Ready` and `Stopped`, `Stop` from every running or starting state).
pub proof fn law_trigger_table(s: ComponentState, t: ComponentTrigger)
    ensures
        (next_state(s, t) is Some) == accepted_from(t, s),
        accepted_from(t, s) ==> next_state(s, t) == Some(trigger_target(t)),
{
}

} // verus!
